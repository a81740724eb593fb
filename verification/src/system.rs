//! What the application asks of the system: the sources it is opened with,
//! the `.torrent` file association, sleep prevention and its log lines.
use crate::text::{
    chars_of, ends_with, extend_vec, has_suffix, lower_seq, seq_eq, slice_vec, split_chars,
    split_seq, starts_with, string_of, to_ascii_lowercase, trim, trim_any, trim_any_chars,
    trim_chars, trim_str, views, has_prefix,
};
use vstd::prelude::*;

verus! {

// ---------------------------------------------------------------------
// Opening sources
// ---------------------------------------------------------------------
/// A path or URL names a torrent file when, before any query or fragment,
/// it ends in `.torrent`.
pub open spec fn spec_is_torrent_path(value: Seq<char>) -> bool {
    ends_with(split_seq(value, false, seq!['?', '#'])[0], ".torrent"@)
}

pub fn is_torrent_path(value: &[char]) -> (r: bool)
    ensures
        r == spec_is_torrent_path(value@),
{
    let stops: Vec<char> = vec!['?', '#'];
    proof {
        assert(stops@ =~= seq!['?', '#']);
        crate::text::lemma_split_nonempty(value@, false, seq!['?', '#']);
    }
    let pieces = split_chars(value, false, &stops);
    proof {
        assert(views(pieces@)[0] == pieces@[0]@);
    }
    has_suffix(&pieces[0], &chars_of(".torrent"))
}

/// An argument the application was opened with, as a source to download:
/// trimmed and unquoted, when it is a magnet link or a torrent file (in any
/// ASCII case).
pub open spec fn spec_open_source(value: Seq<char>) -> Option<Seq<char>> {
    let source = trim_any(trim(value), seq!['"']);
    if source.len() == 0 {
        None
    } else if starts_with(lower_seq(source), "magnet:"@) || spec_is_torrent_path(lower_seq(source)) {
        Some(source)
    } else {
        None
    }
}

pub fn normalize_open_source(value: &str) -> (r: Option<String>)
    ensures
        match r {
            Some(s) => spec_open_source(value@) == Some(s@),
            None => spec_open_source(value@) is None,
        },
{
    let quote: Vec<char> = vec!['"'];
    proof {
        assert(quote@ =~= seq!['"']);
    }
    let source = trim_any_chars(&trim_str(value), &quote);
    if source.len() == 0 {
        return None;
    }
    let lower = to_ascii_lowercase(&source);
    if has_prefix(&lower, &chars_of("magnet:")) || is_torrent_path(&lower) {
        return Some(string_of(&source));
    }
    None
}

/// The sources among the command-line arguments after the program name.
pub open spec fn spec_open_sources(args: Seq<Seq<char>>) -> Seq<Seq<char>>
    decreases args.len(),
{
    if args.len() <= 1 {
        Seq::empty()
    } else {
        let prev = spec_open_sources(args.drop_last());
        match spec_open_source(args.last()) {
            Some(s) => prev.push(s),
            None => prev,
        }
    }
}

pub fn parse_open_sources(args: &[String]) -> (r: Vec<String>)
    ensures
        r@.map_values(|s: String| s@) == spec_open_sources(args@.map_values(|s: String| s@)),
{
    let ghost av = args@.map_values(|s: String| s@);
    let mut out: Vec<String> = Vec::new();
    if args.len() == 0 {
        proof {
            assert(out@.map_values(|s: String| s@) =~= spec_open_sources(av));
        }
        return out;
    }
    let mut i: usize = 1;
    proof {
        assert(out@.map_values(|s: String| s@) =~= spec_open_sources(av.take(1)));
    }
    while i < args.len()
        invariant
            1 <= i <= args@.len(),
            av == args@.map_values(|s: String| s@),
            out@.map_values(|s: String| s@) == spec_open_sources(av.take(i as int)),
        decreases args.len() - i,
    {
        proof {
            assert(av.take(i + 1).drop_last() =~= av.take(i as int));
            assert(av.take(i + 1).last() == args@[i as int]@);
        }
        match normalize_open_source(args[i].as_str()) {
            Some(s) => {
                let ghost before = out@;
                out.push(s);
                proof {
                    assert(out@.map_values(|x: String| x@) =~= before.map_values(|x: String| x@).push(s@));
                }
            },
            None => {},
        }
        i = i + 1;
    }
    proof {
        assert(av.take(i as int) =~= av);
    }
    out
}

/// The sources that the application is asked to open.
pub struct OpenRequestPayload {
    pub sources: Vec<String>,
}

// ---------------------------------------------------------------------
// The `.torrent` association
// ---------------------------------------------------------------------
/// One value written to the current user's registry.
pub struct RegistryValue {
    pub key: String,
    pub name: String,
    pub value: String,
}

pub open spec fn registry_view(v: RegistryValue) -> (Seq<char>, Seq<char>, Seq<char>) {
    (v.key@, v.name@, v.value@)
}

/// The registry values that make the application open `.torrent` files:
/// the extension's class and content type, the application among its
/// handlers, the class's name and icon, and the open command with the file
/// as its argument.
pub open spec fn spec_association_values(exe: Seq<char>) -> Seq<(Seq<char>, Seq<char>, Seq<char>)> {
    seq![
        ("Software\\Classes\\.torrent"@, ""@, "UniDL.Torrent"@),
        ("Software\\Classes\\.torrent"@, "Content Type"@, "application/x-bittorrent"@),
        ("Software\\Classes\\.torrent\\OpenWithProgids"@, "UniDL.Torrent"@, ""@),
        ("Software\\Classes\\UniDL.Torrent"@, ""@, "BitTorrent 文件"@),
        ("Software\\Classes\\UniDL.Torrent\\DefaultIcon"@, ""@, exe + ",0"@),
        (
            "Software\\Classes\\UniDL.Torrent\\shell\\open\\command"@,
            ""@,
            "\""@ + exe + "\" \"%1\""@,
        ),
    ]
}

fn registry_value(key: &str, name: &str, value: Vec<char>) -> (r: RegistryValue)
    ensures
        registry_view(r) == (key@, name@, value@),
{
    RegistryValue { key: key.to_owned(), name: name.to_owned(), value: string_of(&value) }
}

/// The registry values of the `.torrent` association for the executable at
/// `exe`, in the order they are written.
pub fn torrent_file_association_values(exe: &str) -> (r: Vec<RegistryValue>)
    ensures
        r@.map_values(|v: RegistryValue| registry_view(v)) == spec_association_values(exe@),
{
    let e = chars_of(exe);
    let mut icon = slice_vec(&e, 0, e.len());
    extend_vec(&mut icon, &chars_of(",0"));
    let mut command = chars_of("\"");
    extend_vec(&mut command, &e);
    extend_vec(&mut command, &chars_of("\" \"%1\""));
    let mut r: Vec<RegistryValue> = Vec::new();
    r.push(registry_value("Software\\Classes\\.torrent", "", chars_of("UniDL.Torrent")));
    r.push(registry_value("Software\\Classes\\.torrent", "Content Type", chars_of("application/x-bittorrent")));
    r.push(registry_value("Software\\Classes\\.torrent\\OpenWithProgids", "UniDL.Torrent", chars_of("")));
    r.push(registry_value("Software\\Classes\\UniDL.Torrent", "", chars_of("BitTorrent 文件")));
    r.push(registry_value("Software\\Classes\\UniDL.Torrent\\DefaultIcon", "", icon));
    r.push(registry_value("Software\\Classes\\UniDL.Torrent\\shell\\open\\command", "", command));
    proof {
        assert(e@.subrange(0, e@.len() as int) =~= e@);
        assert(r@.map_values(|v: RegistryValue| registry_view(v)) =~= spec_association_values(exe@));
    }
    r
}

/// Registering the `.torrent` association where the platform keeps none
/// (elsewhere than Windows): there is nothing to do, and it succeeds.
pub fn register_torrent_file_association() -> (r: Result<(), String>)
    ensures
        r is Ok,
{
    Ok(())
}

// ---------------------------------------------------------------------
// Sleep prevention
// ---------------------------------------------------------------------
/// Whether the application keeps the system awake, as last applied.
pub struct SleepState {
    prevent_sleep: bool,
}

/// What a request to change sleep prevention needs.
#[derive(Debug, Clone, Copy, PartialEq, Eq, Structural)]
pub enum SleepStep {
    /// The system is already in the requested state.
    Unchanged,
    /// The requested state must be applied, then reported back.
    Apply(bool),
}

impl SleepState {
    pub closed spec fn applied(&self) -> bool {
        self.prevent_sleep
    }

    pub fn new() -> (r: Self)
        ensures
            !r.applied(),
    {
        SleepState { prevent_sleep: false }
    }

    /// Asks for sleep prevention on or off: nothing to do when it already
    /// is, else the state to apply.
    pub fn set_prevent_sleep(&self, prevent_sleep: bool) -> (r: SleepStep)
        ensures
            r == (if self.applied() == prevent_sleep {
                SleepStep::Unchanged
            } else {
                SleepStep::Apply(prevent_sleep)
            }),
    {
        if self.prevent_sleep == prevent_sleep {
            SleepStep::Unchanged
        } else {
            SleepStep::Apply(prevent_sleep)
        }
    }

    /// Records how applying `prevent_sleep` went: the state changes only
    /// when it succeeded, and the outcome is passed on.
    pub fn finish_prevent_sleep(&mut self, prevent_sleep: bool, result: Result<(), String>) -> (r: Result<(), String>)
        ensures
            result is Ok ==> final(self).applied() == prevent_sleep,
            result is Err ==> final(self).applied() == old(self).applied(),
            r == result,
    {
        if result.is_ok() {
            self.prevent_sleep = prevent_sleep;
        }
        result
    }

    /// When the state is dropped, sleep prevention that is on is turned
    /// off.
    pub fn on_drop(&self) -> (r: Option<bool>)
        ensures
            r == (if self.applied() {
                Some(false)
            } else {
                None
            }),
    {
        if self.prevent_sleep {
            Some(false)
        } else {
            None
        }
    }
}

/// Applying sleep prevention where the platform has none (elsewhere than
/// Windows): turning it off succeeds, turning it on fails.
pub fn apply_prevent_sleep(prevent_sleep: bool) -> (r: Result<(), String>)
    ensures
        prevent_sleep ==> (r matches Err(e) && e@ == "preventing system sleep is only supported on Windows"@),
        !prevent_sleep ==> r is Ok,
{
    if prevent_sleep {
        return Err("preventing system sleep is only supported on Windows".to_owned());
    }
    Ok(())
}

// ---------------------------------------------------------------------
// Log lines
// ---------------------------------------------------------------------
/// A message to log, with its level.
pub struct LogRecord {
    pub level: String,
    pub message: String,
}

pub fn info(message: &str) -> (r: LogRecord)
    ensures
        r.level@ == "INFO"@,
        r.message@ == message@,
{
    LogRecord { level: "INFO".to_owned(), message: message.to_owned() }
}

pub fn warn(message: &str) -> (r: LogRecord)
    ensures
        r.level@ == "WARN"@,
        r.message@ == message@,
{
    LogRecord { level: "WARN".to_owned(), message: message.to_owned() }
}

pub fn error(message: &str) -> (r: LogRecord)
    ensures
        r.level@ == "ERROR"@,
        r.message@ == message@,
{
    LogRecord { level: "ERROR".to_owned(), message: message.to_owned() }
}

/// The line a record is written as: `[<timestamp>] [<level>] <message>`.
pub fn log_line(timestamp: &str, record: &LogRecord) -> (r: String)
    ensures
        r@ == "["@ + timestamp@ + "] ["@ + record.level@ + "] "@ + record.message@,
{
    let mut v = chars_of("[");
    extend_vec(&mut v, &chars_of(timestamp));
    extend_vec(&mut v, &chars_of("] ["));
    extend_vec(&mut v, &chars_of(record.level.as_str()));
    extend_vec(&mut v, &chars_of("] "));
    extend_vec(&mut v, &chars_of(record.message.as_str()));
    string_of(&v)
}

/// The log file of a day: `<date>.log`.
pub fn log_file_name(date: &str) -> (r: String)
    ensures
        r@ == date@ + ".log"@,
{
    let mut v = chars_of(date);
    extend_vec(&mut v, &chars_of(".log"));
    string_of(&v)
}

/// The log file changes when the day does.
pub fn log_file_rotates(current_date: &str, date: &str) -> (r: bool)
    ensures
        r == (current_date@ != date@),
{
    !seq_eq(&chars_of(current_date), &chars_of(date))
}

/// The kinds of system that open files differently.
#[derive(Debug, Clone, Copy, PartialEq, Eq, Structural)]
pub enum Platform {
    Windows,
    MacOs,
    OtherUnix,
}

/// The command that opens a file or directory with the system's default
/// program: `cmd /C start "" <path>` on Windows, `open` on macOS,
/// `xdg-open` elsewhere.
pub fn open_command(platform: Platform, path: &str) -> (r: (String, Vec<String>))
    ensures
        platform == Platform::Windows ==> r.0@ == "cmd"@ && r.1@.map_values(|a: String| a@) == seq![
            "/C"@,
            "start"@,
            Seq::<char>::empty(),
            path@,
        ],
        platform == Platform::MacOs ==> r.0@ == "open"@ && r.1@.map_values(|a: String| a@) == seq![path@],
        platform == Platform::OtherUnix ==> r.0@ == "xdg-open"@ && r.1@.map_values(|a: String| a@)
            == seq![path@],
{
    let p = string_of(&chars_of(path));
    match platform {
        Platform::Windows => {
            let args = vec![
                string_of(&chars_of("/C")),
                string_of(&chars_of("start")),
                string_of(&Vec::new()),
                p,
            ];
            proof {
                assert(args@.map_values(|a: String| a@) =~= seq!["/C"@, "start"@, Seq::<char>::empty(), path@]);
            }
            (string_of(&chars_of("cmd")), args)
        },
        Platform::MacOs => {
            let args = vec![p];
            proof {
                assert(args@.map_values(|a: String| a@) =~= seq![path@]);
            }
            (string_of(&chars_of("open")), args)
        },
        Platform::OtherUnix => {
            let args = vec![p];
            proof {
                assert(args@.map_values(|a: String| a@) =~= seq![path@]);
            }
            (string_of(&chars_of("xdg-open")), args)
        },
    }
}

} // verus!
