//! The yt-dlp engine's part of the logic: the command line it is started
//! with, the output name template, and what its output lines say.
use crate::text::{
    chars_of, ends_with, extend_vec, format_i64, has_prefix, has_suffix, index_of, is_ctrl,
    is_control, seq_eq, slice_vec, split_chars, split_seq, split_whitespace, starts_with,
    string_of, tokens, trim, trim_any, trim_any_chars, trim_chars, trim_end_any, trim_end_any_chars,
    trim_str, views,
};
use crate::text::{parse_i64, parse_i64_spec, trim_start_any, trim_start_any_chars, utf8_string};
use crate::torrent::{bytes_to_string, utf8_lossy};
use crate::adapters::{copy_opt, opt_view, EngineTaskState, ProgressValue, TaskSnapshot};
use crate::models::DownloadStatus;
use vstd::prelude::*;
use vstd::utf8::{decode_utf8, valid_utf8};

verus! {

// ---------------------------------------------------------------------
// Output names
// ---------------------------------------------------------------------
/// Characters that Windows does not allow in file names.
pub open spec fn forbidden_in_name(c: char) -> bool {
    c == '<' || c == '>' || c == ':' || c == '"' || c == '/' || c == '\\' || c == '|' || c == '?'
        || c == '*' || is_ctrl(c)
}

/// A file name with each forbidden character replaced by `_`, and trailing
/// spaces and dots removed.
pub open spec fn spec_sanitize_name(name: Seq<char>) -> Seq<char> {
    trim_end_any(
        Seq::new(name.len(), |i: int| if forbidden_in_name(name[i]) { '_' } else { name[i] }),
        seq![' ', '.'],
    )
}

pub fn sanitize_ytdlp_output_name(file_name: &str) -> (r: String)
    ensures
        r@ == spec_sanitize_name(file_name@),
{
    let v = chars_of(file_name);
    let mut out: Vec<char> = Vec::new();
    let mut i: usize = 0;
    while i < v.len()
        invariant
            i <= v@.len(),
            out@ == Seq::new(i as nat, |j: int| if forbidden_in_name(v@[j]) { '_' } else { v@[j] }),
        decreases v.len() - i,
    {
        let c = v[i];
        let bad = c == '<' || c == '>' || c == ':' || c == '"' || c == '/' || c == '\\' || c == '|'
            || c == '?' || c == '*' || is_control(c);
        if bad {
            out.push('_');
        } else {
            out.push(c);
        }
        proof {
            assert(out@ =~= Seq::new((i + 1) as nat, |j: int| if forbidden_in_name(v@[j]) { '_' } else { v@[j] }));
        }
        i = i + 1;
    }
    let tail: Vec<char> = vec![' ', '.'];
    proof {
        assert(tail@ =~= seq![' ', '.']);
        assert(out@ =~= Seq::new(file_name@.len(), |j: int| if forbidden_in_name(file_name@[j]) { '_' } else { file_name@[j] }));
    }
    string_of(&trim_end_any_chars(&out, &tail))
}

/// A file name has an extension when it holds a `.` after its first
/// character.
pub open spec fn has_extension(name: Seq<char>) -> bool {
    exists|i: int| 1 <= i < name.len() && name[i] == '.'
}

pub open spec fn ext_placeholder() -> Seq<char> {
    "%(ext)s"@
}

/// The yt-dlp output template for a file name: the name made safe, with
/// `.%(ext)s` appended unless it has an extension or the placeholder.
pub open spec fn spec_output_template(file_name: Seq<char>) -> Seq<char> {
    let n = spec_sanitize_name(trim(file_name));
    if has_extension(n) || ends_with(n, ext_placeholder()) {
        n
    } else {
        n + seq!['.'] + ext_placeholder()
    }
}

pub fn ytdlp_output_template(file_name: &str) -> (r: String)
    ensures
        r@ == spec_output_template(file_name@),
{
    let trimmed = string_of(&trim_str(file_name));
    let n = chars_of(sanitize_ytdlp_output_name(trimmed.as_str()).as_str());
    let mut has_ext = false;
    let mut i: usize = 1;
    while i < n.len()
        invariant
            1 <= i,
            has_ext == (exists|j: int| 1 <= j < i && j < n@.len() && n@[j] == '.'),
        decreases n.len() - i,
    {
        if n[i] == '.' {
            has_ext = true;
        }
        i = i + 1;
    }
    let placeholder = chars_of("%(ext)s");
    if has_ext || has_suffix(&n, &placeholder) {
        string_of(&n)
    } else {
        let mut out = n;
        out.push('.');
        extend_vec(&mut out, &placeholder);
        string_of(&out)
    }
}

// ---------------------------------------------------------------------
// Output lines
// ---------------------------------------------------------------------
pub open spec fn is_ascii_alpha(c: char) -> bool {
    ('a' <= c <= 'z') || ('A' <= c <= 'Z')
}

/// A path without a leading Windows drive (`C:`).
pub open spec fn strip_drive(p: Seq<char>) -> Seq<char> {
    if p.len() >= 2 && is_ascii_alpha(p[0]) && p[1] == ':' {
        p.skip(2)
    } else {
        p
    }
}

/// The named components among path pieces: empty pieces and `.` dropped.
pub open spec fn named_components(s: Seq<Seq<char>>) -> Seq<Seq<char>>
    decreases s.len(),
{
    if s.len() == 0 {
        s
    } else if s.last().len() > 0 && s.last() != seq!['.'] {
        named_components(s.drop_last()).push(s.last())
    } else {
        named_components(s.drop_last())
    }
}

/// The final component of a Windows path (`Path::file_name`): `/` and `\\`
/// separate components, a drive is dropped, and a path that ends in `..`
/// or names no component has none.
pub open spec fn windows_file_name(p: Seq<char>) -> Option<Seq<char>> {
    let cs = named_components(split_seq(strip_drive(p), false, seq!['/', '\\']));
    if cs.len() == 0 || cs.last() == seq!['.', '.'] {
        None
    } else {
        Some(cs.last())
    }
}

pub fn windows_path_file_name(p: &[char]) -> (r: Option<Vec<char>>)
    ensures
        match r {
            Some(n) => windows_file_name(p@) == Some(n@),
            None => windows_file_name(p@) is None,
        },
{
    let rest = if p.len() >= 2 && (('a' <= p[0] && p[0] <= 'z') || ('A' <= p[0] && p[0] <= 'Z'))
        && p[1] == ':' {
        slice_vec(p, 2, p.len())
    } else {
        slice_vec(p, 0, p.len())
    };
    proof {
        assert(rest@ =~= strip_drive(p@));
    }
    let seps: Vec<char> = vec!['/', '\\'];
    proof {
        assert(seps@ =~= seq!['/', '\\']);
    }
    let pieces = split_chars(&rest, false, &seps);
    let ghost pv = views(pieces@);
    let mut kept: Vec<Vec<char>> = Vec::new();
    let mut i: usize = 0;
    proof {
        assert(pv.take(0) =~= Seq::<Seq<char>>::empty());
    }
    while i < pieces.len()
        invariant
            i <= pieces@.len(),
            pv == views(pieces@),
            views(kept@) == named_components(pv.take(i as int)),
        decreases pieces.len() - i,
    {
        proof {
            assert(pv.take(i + 1).drop_last() =~= pv.take(i as int));
            assert(pv.take(i + 1).last() == pieces@[i as int]@);
        }
        let piece = &pieces[i];
        let dot: Vec<char> = vec!['.'];
        proof {
            assert(dot@ =~= seq!['.']);
        }
        if piece.len() > 0 && !seq_eq(piece, &dot) {
            let x = slice_vec(piece, 0, piece.len());
            let ghost before = kept@;
            kept.push(x);
            proof {
                assert(x@ =~= piece@);
                assert(views(kept@) =~= views(before).push(x@));
            }
        }
        i = i + 1;
    }
    proof {
        assert(pv.take(i as int) =~= pv);
    }
    if kept.len() == 0 {
        return None;
    }
    let last = slice_vec(&kept[kept.len() - 1], 0, kept[kept.len() - 1].len());
    let dots: Vec<char> = vec!['.', '.'];
    proof {
        assert(dots@ =~= seq!['.', '.']);
        assert(last@ =~= views(kept@).last());
    }
    if seq_eq(&last, &dots) {
        return None;
    }
    Some(last)
}

pub open spec fn download_destination() -> Seq<char> {
    "[download] Destination: "@
}

pub open spec fn extract_destination() -> Seq<char> {
    "[ExtractAudio] Destination: "@
}

pub open spec fn merger_prefix() -> Seq<char> {
    "[Merger] Merging formats into "@
}

/// The path a trimmed output line announces: after a download or
/// extracted-audio destination prefix, or after the merger prefix with any
/// surrounding double quotes removed.
pub open spec fn announced_path(t: Seq<char>) -> Option<Seq<char>> {
    if starts_with(t, download_destination()) {
        Some(trim(t.skip(download_destination().len() as int)))
    } else if starts_with(t, extract_destination()) {
        Some(trim(t.skip(extract_destination().len() as int)))
    } else if starts_with(t, merger_prefix()) {
        let rest = trim(t.skip(merger_prefix().len() as int));
        if rest.len() >= 2 && rest[0] == '"' && rest.last() == '"' {
            Some(rest.subrange(1, rest.len() - 1))
        } else {
            Some(rest)
        }
    } else {
        None
    }
}

/// The file name of the output file that a yt-dlp line announces.
pub open spec fn spec_destination_name(line: Seq<char>) -> Option<Seq<char>> {
    match announced_path(trim(line)) {
        None => None,
        Some(path) => if path.len() == 0 {
            None
        } else {
            windows_file_name(path)
        },
    }
}

pub fn parse_ytdlp_destination_name(line: &str) -> (r: Option<String>)
    ensures
        match r {
            Some(n) => spec_destination_name(line@) == Some(n@),
            None => spec_destination_name(line@) is None,
        },
{
    let t = trim_str(line);
    let d = chars_of("[download] Destination: ");
    let x = chars_of("[ExtractAudio] Destination: ");
    let m = chars_of("[Merger] Merging formats into ");
    let path = if has_prefix(&t, &d) {
        trim_chars(&slice_vec(&t, d.len(), t.len()))
    } else if has_prefix(&t, &x) {
        trim_chars(&slice_vec(&t, x.len(), t.len()))
    } else if has_prefix(&t, &m) {
        let rest = trim_chars(&slice_vec(&t, m.len(), t.len()));
        if rest.len() >= 2 && rest[0] == '"' && rest[rest.len() - 1] == '"' {
            slice_vec(&rest, 1, rest.len() - 1)
        } else {
            rest
        }
    } else {
        return None;
    };
    proof {
        assert(t@.skip(d@.len() as int) =~= t@.subrange(d@.len() as int, t@.len() as int));
        assert(t@.skip(x@.len() as int) =~= t@.subrange(x@.len() as int, t@.len() as int));
        assert(t@.skip(m@.len() as int) =~= t@.subrange(m@.len() as int, t@.len() as int));
        assert(announced_path(trim(line@)) == Some(path@));
    }
    if path.len() == 0 {
        return None;
    }
    match windows_path_file_name(&path) {
        Some(n) => Some(string_of(&n)),
        None => None,
    }
}

/// The index of the last `c` in `s`, if any.
pub open spec fn rindex_of(s: Seq<char>, c: char) -> Option<int>
    decreases s.len(),
{
    if s.len() == 0 {
        None
    } else if s.last() == c {
        Some(s.len() - 1)
    } else {
        rindex_of(s.drop_last(), c)
    }
}

pub fn rfind_char(v: &[char], c: char) -> (r: Option<usize>)
    ensures
        match r {
            Some(i) => rindex_of(v@, c) == Some(i as int) && i < v@.len(),
            None => rindex_of(v@, c) is None,
        },
{
    let mut j: usize = v.len();
    proof {
        assert(v@.take(j as int) =~= v@);
    }
    while j > 0
        invariant
            j <= v@.len(),
            rindex_of(v@, c) == rindex_of(v@.take(j as int), c),
        decreases j,
    {
        proof {
            assert(v@.take(j as int).drop_last() =~= v@.take(j - 1));
        }
        if v[j - 1] == c {
            return Some(j - 1);
        }
        j = j - 1;
    }
    None
}

/// A name of the form `<base>.f<digits>.<ext>`, which yt-dlp gives the
/// single-format streams it merges afterwards.
pub open spec fn spec_format_temp_name(name: Seq<char>) -> bool {
    match rindex_of(name, '.') {
        None => false,
        Some(l) => l + 1 < name.len() && match rindex_of(name.take(l), '.') {
            None => false,
            Some(m) => {
                let fmt = name.subrange(m + 1, l);
                fmt.len() >= 2 && fmt[0] == 'f' && forall|k: int|
                    1 <= k < fmt.len() ==> '0' <= #[trigger] fmt[k] <= '9'
            },
        },
    }
}

pub fn is_ytdlp_format_temp_file_name(name: &str) -> (r: bool)
    ensures
        r == spec_format_temp_name(name@),
{
    let v = chars_of(name);
    let l = match rfind_char(&v, '.') {
        Some(l) => l,
        None => return false,
    };
    if v.len() - l <= 1 {
        return false;
    }
    let head = slice_vec(&v, 0, l);
    proof {
        assert(head@ =~= v@.take(l as int));
    }
    let m = match rfind_char(&head, '.') {
        Some(m) => m,
        None => return false,
    };
    let fmt = slice_vec(&v, m + 1, l);
    if fmt.len() < 2 || fmt[0] != 'f' {
        return false;
    }
    let mut k: usize = 1;
    while k < fmt.len()
        invariant
            1 <= k <= fmt@.len(),
            v@ == name@,
            m < l,
            fmt@ == v@.subrange(m + 1, l as int),
            rindex_of(name@, '.') == Some(l as int),
            l + 1 < name@.len(),
            rindex_of(name@.take(l as int), '.') == Some(m as int),
            fmt@.len() >= 2 && fmt@[0] == 'f',
            forall|j: int| 1 <= j < k ==> '0' <= #[trigger] fmt@[j] <= '9',
        decreases fmt.len() - k,
    {
        if !('0' <= fmt[k] && fmt[k] <= '9') {
            proof {
                assert(!('0' <= fmt@[k as int] <= '9'));
            }
            return false;
        }
        k = k + 1;
    }
    true
}

// ---------------------------------------------------------------------
// Arguments
// ---------------------------------------------------------------------
/// An argument without surrounding whitespace and quotes.
pub open spec fn spec_trim_arg(v: Seq<char>) -> Seq<char> {
    trim_any(trim(v), seq!['"', '\''])
}

pub fn trim_ytdlp_arg(value: &[char]) -> (r: Vec<char>)
    ensures
        r@ == spec_trim_arg(value@),
{
    let t = trim_chars(value);
    let quotes: Vec<char> = vec!['"', '\''];
    proof {
        assert(quotes@ =~= seq!['"', '\'']);
    }
    trim_any_chars(&t, &quotes)
}

/// The trimmed text, when any is left.
pub open spec fn spec_non_empty(v: Seq<char>) -> Option<Seq<char>> {
    if trim(v).len() == 0 {
        None
    } else {
        Some(trim(v))
    }
}

pub fn non_empty_string(value: &[char]) -> (r: Option<String>)
    ensures
        match r {
            Some(s) => spec_non_empty(value@) == Some(s@),
            None => spec_non_empty(value@) is None,
        },
{
    let t = trim_chars(value);
    if t.len() == 0 {
        None
    } else {
        Some(string_of(&t))
    }
}

pub open spec fn ffmpeg_location_flag() -> Seq<char> {
    "--ffmpeg-location"@
}

pub open spec fn ffmpeg_location_prefix() -> Seq<char> {
    "--ffmpeg-location="@
}

/// The ffmpeg location set from the `i`-th argument on: `--ffmpeg-location
/// <path>` or `--ffmpeg-location=<path>`, unquoted and non-empty.
pub open spec fn ffmpeg_location_from(args: Seq<Seq<char>>, i: int) -> Option<Seq<char>>
    decreases args.len() - i,
{
    if i < 0 || i >= args.len() {
        None
    } else if args[i] == ffmpeg_location_flag() {
        if i + 1 < args.len() {
            spec_non_empty(spec_trim_arg(args[i + 1]))
        } else {
            None
        }
    } else if starts_with(args[i], ffmpeg_location_prefix()) {
        spec_non_empty(spec_trim_arg(args[i].skip(ffmpeg_location_prefix().len() as int)))
    } else {
        ffmpeg_location_from(args, i + 1)
    }
}

/// The ffmpeg location that yt-dlp arguments set.
pub fn ytdlp_ffmpeg_location(args: &str) -> (r: Option<String>)
    ensures
        match r {
            Some(s) => ffmpeg_location_from(tokens(args@), 0) == Some(s@),
            None => ffmpeg_location_from(tokens(args@), 0) is None,
        },
{
    let text = chars_of(args);
    let parts = split_whitespace(&text);
    let flag = chars_of("--ffmpeg-location");
    let prefix = chars_of("--ffmpeg-location=");
    let ghost ts = views(parts@);
    let mut i: usize = 0;
    while i < parts.len()
        invariant
            i <= parts@.len(),
            ts == views(parts@),
            ts == tokens(args@),
            flag@ == ffmpeg_location_flag(),
            prefix@ == ffmpeg_location_prefix(),
            ffmpeg_location_from(ts, 0) == ffmpeg_location_from(ts, i as int),
        decreases parts.len() - i,
    {
        let part = &parts[i];
        proof {
            assert(ts[i as int] == part@);
        }
        if seq_eq(part, &flag) {
            if i + 1 < parts.len() {
                proof {
                    assert(ts[i + 1] == parts@[i + 1]@);
                }
                let arg = trim_ytdlp_arg(&parts[i + 1]);
                return non_empty_string(&arg);
            }
            return None;
        }
        if has_prefix(part, &prefix) {
            let n = part.len();
            let rest = slice_vec(part, prefix.len(), n);
            proof {
                assert(rest@ =~= part@.skip(prefix@.len() as int));
            }
            let arg = trim_ytdlp_arg(&rest);
            return non_empty_string(&arg);
        }
        i = i + 1;
    }
    None
}

/// The file name of the ffmpeg program on the platform.
pub fn ffmpeg_binary_name(windows: bool) -> (r: &'static str)
    ensures
        r@ == (if windows {
            "ffmpeg.exe"@
        } else {
            "ffmpeg"@
        }),
{
    if windows {
        "ffmpeg.exe"
    } else {
        "ffmpeg"
    }
}

pub open spec fn fast_default_args() -> Seq<char> {
    "--no-playlist --js-runtimes node --concurrent-fragments 8"@
}

pub open spec fn progress_template() -> Seq<char> {
    "download:[UniDL:progress] {\"status\":%(progress.status|)j,\"downloadedBytes\":%(progress.downloaded_bytes|0)j,\"totalBytes\":%(progress.total_bytes|0)j,\"totalBytesEstimate\":%(progress.total_bytes_estimate|0)j,\"speedBytesPerSec\":%(progress.speed|0)j,\"percent\":%(progress._percent_str|)j}"@
}

/// The transfer arguments: the user agent and the rate limit, where set.
pub open spec fn spec_transfer_args(user_agent: Option<Seq<char>>, speed_limit: Option<i64>) -> Seq<
    Seq<char>,
> {
    let ua = match user_agent {
        Some(u) => if trim(u).len() > 0 {
            seq!["--user-agent"@, trim(u)]
        } else {
            Seq::empty()
        },
        None => Seq::empty(),
    };
    let limit = match speed_limit {
        Some(l) => if l > 0 {
            seq!["--limit-rate"@, crate::text::dec_int(l as int)]
        } else {
            Seq::empty()
        },
        None => Seq::empty(),
    };
    ua + limit
}

pub open spec fn strings_view(v: Seq<String>) -> Seq<Seq<char>> {
    v.map_values(|s: String| s@)
}

/// Appends the text to the argument list.
fn push_arg(args: &mut Vec<String>, text: &str)
    ensures
        strings_view(final(args)@) == strings_view(old(args)@).push(text@),
{
    let ghost before = args@;
    args.push(text.to_owned());
    proof {
        assert(strings_view(args@) =~= strings_view(before).push(text@));
    }
}

/// Appends the whitespace-separated arguments to the argument list.
fn push_args(args: &mut Vec<String>, text: &str)
    ensures
        strings_view(final(args)@) == strings_view(old(args)@) + tokens(text@),
{
    let v = chars_of(text);
    let parts = split_whitespace(&v);
    let mut i: usize = 0;
    let ghost start = strings_view(args@);
    while i < parts.len()
        invariant
            i <= parts@.len(),
            views(parts@) == tokens(text@),
            strings_view(args@) == start + views(parts@).take(i as int),
        decreases parts.len() - i,
    {
        let s = string_of(&parts[i]);
        let ghost before = args@;
        args.push(s);
        proof {
            assert(strings_view(args@) =~= strings_view(before).push(s@));
            assert(views(parts@).take(i + 1) =~= views(parts@).take(i as int).push(parts@[i as int]@));
        }
        i = i + 1;
    }
    proof {
        assert(views(parts@).take(i as int) =~= views(parts@));
    }
}

/// The user agent and rate limit arguments of yt-dlp.
pub fn append_ytdlp_transfer_options(
    args: &mut Vec<String>,
    user_agent: Option<&str>,
    speed_limit_bytes_per_sec: Option<i64>,
)
    ensures
        strings_view(final(args)@) == strings_view(old(args)@) + spec_transfer_args(
            match user_agent {
                Some(u) => Some(u@),
                None => None,
            },
            speed_limit_bytes_per_sec,
        ),
{
    let ghost start = strings_view(args@);
    match user_agent {
        Some(u) => {
            let t = trim_str(u);
            if t.len() > 0 {
                push_arg(args, "--user-agent");
                let s = string_of(&t);
                push_arg(args, s.as_str());
            }
        },
        None => {},
    }
    let ghost mid = strings_view(args@);
    match speed_limit_bytes_per_sec {
        Some(l) => if l > 0 {
            push_arg(args, "--limit-rate");
            let s = string_of(&format_i64(l));
            push_arg(args, s.as_str());
        },
        None => {},
    }
    proof {
        let ua = match user_agent {
            Some(u) => Some(u@),
            None => None,
        };
        assert(strings_view(args@) =~= start + spec_transfer_args(ua, speed_limit_bytes_per_sec));
    }
}

/// The arguments that report progress in the application's format.
pub open spec fn progress_args() -> Seq<Seq<char>> {
    seq!["--progress"@, "--newline"@, "--progress-template"@, progress_template()]
}

/// `--continue` when resuming, else `--force-overwrites`.
pub open spec fn resume_args(force_continue: bool) -> Seq<Seq<char>> {
    if force_continue {
        seq!["--continue"@]
    } else {
        seq!["--force-overwrites"@]
    }
}

/// A flag and its value, when the value is given.
pub open spec fn flag_args(flag: Seq<char>, value: Option<Seq<char>>) -> Seq<Seq<char>> {
    match value {
        Some(v) => seq![flag, v],
        None => Seq::empty(),
    }
}

/// The output template, the save directory and the source.
pub open spec fn target_args(file_name: Seq<char>, save_path: Seq<char>, source: Seq<char>) -> Seq<
    Seq<char>,
> {
    seq!["--output"@, spec_output_template(file_name), "-P"@, save_path, source]
}

/// The command-line arguments that start a yt-dlp download, in order: the
/// fast defaults, the configured and task arguments, the transfer options,
/// the progress options, `--continue` when resuming (else
/// `--force-overwrites`), the proxy and cookie file where given, then the
/// output template, the save directory and the source.
pub open spec fn spec_ytdlp_args(
    default_args: Seq<char>,
    engine_args: Seq<char>,
    user_agent: Option<Seq<char>>,
    speed_limit: Option<i64>,
    force_continue: bool,
    proxy_url: Option<Seq<char>>,
    cookie_path: Option<Seq<char>>,
    file_name: Seq<char>,
    save_path: Seq<char>,
    source: Seq<char>,
) -> Seq<Seq<char>> {
    tokens(fast_default_args()) + tokens(default_args) + tokens(engine_args) + spec_transfer_args(
        user_agent,
        speed_limit,
    ) + progress_args() + resume_args(force_continue) + flag_args("--proxy"@, proxy_url)
        + flag_args("--cookies"@, cookie_path) + target_args(file_name, save_path, source)
}

pub open spec fn opt_str(v: Option<&str>) -> Option<Seq<char>> {
    match v {
        Some(s) => Some(s@),
        None => None,
    }
}

fn push_flag(args: &mut Vec<String>, flag: &str, value: Option<&str>)
    ensures
        strings_view(final(args)@) == strings_view(old(args)@) + flag_args(flag@, opt_str(value)),
{
    match value {
        Some(v) => {
            push_arg(args, flag);
            push_arg(args, v);
            proof {
                assert(strings_view(args@) =~= strings_view(old(args)@) + flag_args(flag@, opt_str(value)));
            }
        },
        None => {
            proof {
                assert(strings_view(args@) =~= strings_view(old(args)@) + flag_args(flag@, opt_str(value)));
            }
        },
    }
}

/// The command-line arguments that start a yt-dlp download.
pub fn ytdlp_command_args(
    default_args: &str,
    engine_args: &str,
    user_agent: Option<&str>,
    speed_limit_bytes_per_sec: Option<i64>,
    force_continue: bool,
    proxy_url: Option<&str>,
    cookie_path: Option<&str>,
    file_name: &str,
    save_path: &str,
    source: &str,
) -> (r: Vec<String>)
    ensures
        strings_view(r@) == spec_ytdlp_args(
            default_args@,
            engine_args@,
            opt_str(user_agent),
            speed_limit_bytes_per_sec,
            force_continue,
            opt_str(proxy_url),
            opt_str(cookie_path),
            file_name@,
            save_path@,
            source@,
        ),
{
    let mut args: Vec<String> = Vec::new();
    let fast = "--no-playlist --js-runtimes node --concurrent-fragments 8";
    push_args(&mut args, fast);
    push_args(&mut args, default_args);
    push_args(&mut args, engine_args);
    append_ytdlp_transfer_options(&mut args, user_agent, speed_limit_bytes_per_sec);
    let ghost a1 = strings_view(args@);
    proof {
        assert(a1 =~= Seq::<Seq<char>>::empty() + tokens(fast@) + tokens(default_args@) + tokens(engine_args@) + spec_transfer_args(opt_str(user_agent), speed_limit_bytes_per_sec));
    }
    push_arg(&mut args, "--progress");
    push_arg(&mut args, "--newline");
    push_arg(&mut args, "--progress-template");
    push_arg(
        &mut args,
        "download:[UniDL:progress] {\"status\":%(progress.status|)j,\"downloadedBytes\":%(progress.downloaded_bytes|0)j,\"totalBytes\":%(progress.total_bytes|0)j,\"totalBytesEstimate\":%(progress.total_bytes_estimate|0)j,\"speedBytesPerSec\":%(progress.speed|0)j,\"percent\":%(progress._percent_str|)j}",
    );
    let ghost a2 = strings_view(args@);
    proof {
        assert(a2 =~= a1 + progress_args());
    }
    if force_continue {
        push_arg(&mut args, "--continue");
    } else {
        push_arg(&mut args, "--force-overwrites");
    }
    let ghost a3 = strings_view(args@);
    proof {
        assert(a3 =~= a2 + resume_args(force_continue));
    }
    push_flag(&mut args, "--proxy", proxy_url);
    push_flag(&mut args, "--cookies", cookie_path);
    let ghost a4 = strings_view(args@);
    push_arg(&mut args, "--output");
    let template = ytdlp_output_template(file_name);
    push_arg(&mut args, template.as_str());
    push_arg(&mut args, "-P");
    push_arg(&mut args, save_path);
    push_arg(&mut args, source);
    proof {
        assert(strings_view(args@) =~= a4 + target_args(file_name@, save_path@, source@));
    }
    args
}

// ---------------------------------------------------------------------
// Sizes and speeds
// ---------------------------------------------------------------------
/// The factor of a size unit as yt-dlp prints it (none, `B`, binary and
/// decimal multiples).
pub open spec fn unit_multiplier(unit: Seq<char>) -> Option<i64> {
    if unit.len() == 0 || unit == "B"@ {
        Some(1)
    } else if unit == "KiB"@ {
        Some(1024)
    } else if unit == "MiB"@ {
        Some(1048576)
    } else if unit == "GiB"@ {
        Some(1073741824)
    } else if unit == "KB"@ {
        Some(1000)
    } else if unit == "MB"@ {
        Some(1000000)
    } else if unit == "GB"@ {
        Some(1000000000)
    } else {
        None
    }
}

pub open spec fn is_number_char(c: char) -> bool {
    ('0' <= c <= '9') || c == '.'
}

/// The length of the leading run of digits and dots.
pub open spec fn number_prefix_len(v: Seq<char>) -> int {
    if exists|i: int| 0 <= i < v.len() && !is_number_char(v[i]) && forall|j: int| 0 <= j < i ==> is_number_char(v[j]) {
        choose|i: int| 0 <= i < v.len() && !is_number_char(v[i]) && forall|j: int| 0 <= j < i ==> is_number_char(v[j])
    } else {
        v.len() as int
    }
}

/// Digits with at most one dot and at least one digit: the decimal texts
/// that `str::parse::<f64>` accepts among strings of digits and dots.
pub open spec fn is_decimal_text(t: Seq<char>) -> bool {
    &&& exists|i: int| 0 <= i < t.len() && '0' <= #[trigger] t[i] <= '9'
    &&& forall|i: int, j: int| 0 <= i < j < t.len() && t[i] == '.' ==> t[j] != '.'
}

/// A size as yt-dlp prints it, split into its number and the factor of its
/// unit; leading `~` marks are ignored.
pub struct ByteValueParts {
    pub number: String,
    pub multiplier: i64,
}

pub open spec fn spec_byte_value_parts(value: Seq<char>) -> Option<(Seq<char>, i64)> {
    let v = trim_start_any(value, seq!['~']);
    let k = number_prefix_len(v);
    let number = v.take(k);
    match unit_multiplier(v.skip(k)) {
        Some(m) => if is_decimal_text(number) {
            Some((number, m))
        } else {
            None
        },
        None => None,
    }
}

/// The size units step as their names say: `B` (or no unit) is one byte;
/// `KiB`, `MiB` and `GiB` each multiply by 1024 (up to 2^30); `KB`, `MB`
/// and `GB` each multiply by 1000.
pub proof fn lemma_size_units()
    ensures
        unit_multiplier(Seq::empty()) == Some(1i64),
        unit_multiplier("B"@) == Some(1i64),
        unit_multiplier("KiB"@) == Some(1024i64),
        unit_multiplier("MiB"@) is Some && unit_multiplier("MiB"@)->0 == 1024 * unit_multiplier("KiB"@)->0,
        unit_multiplier("GiB"@) is Some && unit_multiplier("GiB"@)->0 == 1024 * unit_multiplier("MiB"@)->0,
        unit_multiplier("GiB"@) == Some(1073741824i64),
        unit_multiplier("KB"@) == Some(1000i64),
        unit_multiplier("MB"@) is Some && unit_multiplier("MB"@)->0 == 1000 * unit_multiplier("KB"@)->0,
        unit_multiplier("GB"@) is Some && unit_multiplier("GB"@)->0 == 1000 * unit_multiplier("MB"@)->0,
{
    reveal_strlit("B");
    reveal_strlit("KiB");
    reveal_strlit("MiB");
    reveal_strlit("GiB");
    reveal_strlit("KB");
    reveal_strlit("MB");
    reveal_strlit("GB");
    assert("MiB"@ != "KiB"@) by {
        assert("MiB"@[0] != "KiB"@[0]);
    }
    assert("GiB"@ != "KiB"@ && "GiB"@ != "MiB"@) by {
        assert("GiB"@[0] != "KiB"@[0]);
        assert("GiB"@[0] != "MiB"@[0]);
    }
    assert("MB"@ != "KB"@) by {
        assert("MB"@[0] != "KB"@[0]);
    }
    assert("GB"@ != "KB"@ && "GB"@ != "MB"@) by {
        assert("GB"@[0] != "KB"@[0]);
        assert("GB"@[0] != "MB"@[0]);
    }
}

/// A decimal number written straight before a unit (and, for a speed,
/// `/s` after it) reads as that number and the unit's factor.
pub proof fn lemma_byte_value_parts(number: Seq<char>, unit: Seq<char>)
    requires
        is_decimal_text(number),
        forall|i: int| 0 <= i < number.len() ==> is_number_char(#[trigger] number[i]),
        unit_multiplier(unit) is Some,
        unit.len() > 0 ==> !is_number_char(unit[0]),
    ensures
        spec_byte_value_parts(number + unit) == Some((number, unit_multiplier(unit)->0)),
        spec_speed_parts(number + unit + "/s"@) == Some((number, unit_multiplier(unit)->0)),
{
    let v = number + unit;
    let d = choose|i: int| 0 <= i < number.len() && '0' <= #[trigger] number[i] <= '9';
    assert(number.len() > 0);
    assert(v[0] == number[0]);
    assert(!seq!['~'].contains(v[0])) by {
        if seq!['~'].contains(v[0]) {
            let j = choose|j: int| 0 <= j < 1 && seq!['~'][j] == v[0];
            assert(seq!['~'][j] == '~');
            assert(is_number_char(number[0]));
        }
    }
    assert(trim_start_any(v, seq!['~']) == v);
    let n = number.len() as int;
    if unit.len() > 0 {
        assert(v[n] == unit[0]);
        assert(0 <= n < v.len() && !is_number_char(v[n]) && forall|j: int| 0 <= j < n ==> is_number_char(v[j])) by {
            assert forall|j: int| 0 <= j < n implies is_number_char(v[j]) by {
                assert(v[j] == number[j]);
            }
        }
        let c = choose|i: int| 0 <= i < v.len() && !is_number_char(v[i]) && forall|j: int| 0 <= j < i ==> is_number_char(v[j]);
        if c < n {
            assert(v[c] == number[c]);
        }
        if n < c {
            assert(is_number_char(v[n]));
        }
        assert(number_prefix_len(v) == n);
    } else {
        assert(v =~= number);
        assert(!exists|i: int| 0 <= i < v.len() && !is_number_char(v[i]) && forall|j: int| 0 <= j < i ==> is_number_char(v[j])) by {
            if exists|i: int| 0 <= i < v.len() && !is_number_char(v[i]) && forall|j: int| 0 <= j < i ==> is_number_char(v[j]) {
                let i = choose|i: int| 0 <= i < v.len() && !is_number_char(v[i]) && forall|j: int| 0 <= j < i ==> is_number_char(v[j]);
                assert(v[i] == number[i]);
            }
        }
        assert(number_prefix_len(v) == n);
    }
    assert(v.take(n) =~= number);
    assert(v.skip(n) =~= unit);
    let w = v + "/s"@;
    reveal_strlit("/s");
    assert(crate::text::ends_with(w, "/s"@)) by {
        assert(w.skip(w.len() - 2) =~= "/s"@);
    }
    assert(w.take(w.len() - 2) =~= v);
}

pub fn ytdlp_byte_value_parts(value: &[char]) -> (r: Option<ByteValueParts>)
    ensures
        match r {
            Some(p) => spec_byte_value_parts(value@) == Some((p.number@, p.multiplier)),
            None => spec_byte_value_parts(value@) is None,
        },
{
    let tilde: Vec<char> = vec!['~'];
    proof {
        assert(tilde@ =~= seq!['~']);
    }
    let v = trim_start_any_chars(value, &tilde);
    let mut k: usize = 0;
    while k < v.len() && (('0' <= v[k] && v[k] <= '9') || v[k] == '.')
        invariant
            k <= v@.len(),
            forall|j: int| 0 <= j < k ==> is_number_char(#[trigger] v@[j]),
        decreases v.len() - k,
    {
        k = k + 1;
    }
    proof {
        if k < v@.len() {
            assert(!is_number_char(v@[k as int]));
            let c = choose|i: int| 0 <= i < v@.len() && !is_number_char(v@[i]) && forall|j: int| 0 <= j < i ==> is_number_char(v@[j]);
            if c < k {
                assert(is_number_char(v@[c]));
            }
            if k < c {
                assert(is_number_char(v@[k as int]));
            }
            assert(number_prefix_len(v@) == k);
        } else {
            assert(number_prefix_len(v@) == k);
        }
    }
    let number = slice_vec(&v, 0, k);
    let unit = slice_vec(&v, k, v.len());
    proof {
        assert(number@ =~= v@.take(k as int));
        assert(unit@ =~= v@.skip(k as int));
    }
    let multiplier: i64 = if unit.len() == 0 || seq_eq(&unit, &chars_of("B")) {
        1
    } else if seq_eq(&unit, &chars_of("KiB")) {
        1024
    } else if seq_eq(&unit, &chars_of("MiB")) {
        1048576
    } else if seq_eq(&unit, &chars_of("GiB")) {
        1073741824
    } else if seq_eq(&unit, &chars_of("KB")) {
        1000
    } else if seq_eq(&unit, &chars_of("MB")) {
        1000000
    } else if seq_eq(&unit, &chars_of("GB")) {
        1000000000
    } else {
        return None;
    };
    let mut digits = false;
    let mut dots: usize = 0;
    let mut i: usize = 0;
    proof {
        assert forall|j: int| 0 <= j < number@.len() implies is_number_char(#[trigger] number@[j]) by {
            assert(number@[j] == v@[j]);
        }
    }
    while i < number.len()
        invariant
            i <= number@.len(),
            forall|j: int| 0 <= j < number@.len() ==> is_number_char(#[trigger] number@[j]),
            dots <= i,
            digits == (exists|j: int| 0 <= j < i && '0' <= #[trigger] number@[j] <= '9'),
            dots <= 1 ==> forall|a: int, b: int| 0 <= a < b < i && number@[a] == '.' ==> number@[b] != '.',
            dots == 1 ==> exists|a: int| 0 <= a < i && number@[a] == '.',
            dots == 0 ==> forall|a: int| 0 <= a < i ==> number@[a] != '.',
            dots >= 2 ==> exists|a: int, b: int| 0 <= a < b < i && number@[a] == '.' && number@[b] == '.',
        decreases number.len() - i,
    {
        if number[i] == '.' {
            proof {
                if dots == 1 {
                    let a = choose|a: int| 0 <= a < i && number@[a] == '.';
                    assert(number@[a] == '.' && number@[i as int] == '.');
                }
                if dots >= 2 {
                    let (a, b) = choose|a: int, b: int| 0 <= a < b < i && number@[a] == '.' && number@[b] == '.';
                    assert(0 <= a < b < i + 1 && number@[a] == '.' && number@[b] == '.');
                }
            }
            if dots < 2 {
                dots = dots + 1;
            }
        } else {
            digits = true;
        }
        i = i + 1;
    }
    if !digits || dots > 1 {
        proof {
            if dots > 1 {
                let (a, b) = choose|a: int, b: int| 0 <= a < b < i && number@[a] == '.' && number@[b] == '.';
                assert(!is_decimal_text(number@));
            }
        }
        return None;
    }
    Some(ByteValueParts { number: string_of(&number), multiplier })
}

/// A speed as yt-dlp prints it: a size followed by `/s`.
pub open spec fn spec_speed_parts(value: Seq<char>) -> Option<(Seq<char>, i64)> {
    if crate::text::ends_with(value, "/s"@) {
        spec_byte_value_parts(value.take(value.len() - 2))
    } else {
        None
    }
}

pub fn ytdlp_speed_parts(value: &str) -> (r: Option<ByteValueParts>)
    ensures
        match r {
            Some(p) => spec_speed_parts(value@) == Some((p.number@, p.multiplier)),
            None => spec_speed_parts(value@) is None,
        },
{
    let v = chars_of(value);
    let suffix = chars_of("/s");
    proof {
        reveal_strlit("/s");
    }
    if !has_suffix(&v, &suffix) {
        return None;
    }
    let n = v.len();
    let head = slice_vec(&v, 0, n - 2);
    proof {
        assert(head@ =~= v@.take(v@.len() - 2));
    }
    ytdlp_byte_value_parts(&head)
}

// ---------------------------------------------------------------------
// Decoding output lines
// ---------------------------------------------------------------------
/// The encoding label of a Windows ANSI code page.
pub open spec fn spec_code_page_label(code_page: u32) -> Option<Seq<char>> {
    if code_page == 936 {
        Some("GBK"@)
    } else if code_page == 950 {
        Some("Big5"@)
    } else if code_page == 932 {
        Some("Shift_JIS"@)
    } else if code_page == 949 {
        Some("EUC-KR"@)
    } else if code_page == 874 {
        Some("windows-874"@)
    } else if code_page == 1250 {
        Some("windows-1250"@)
    } else if code_page == 1251 {
        Some("windows-1251"@)
    } else if code_page == 1252 {
        Some("windows-1252"@)
    } else if code_page == 1253 {
        Some("windows-1253"@)
    } else if code_page == 1254 {
        Some("windows-1254"@)
    } else if code_page == 1255 {
        Some("windows-1255"@)
    } else if code_page == 1256 {
        Some("windows-1256"@)
    } else if code_page == 1257 {
        Some("windows-1257"@)
    } else if code_page == 1258 {
        Some("windows-1258"@)
    } else {
        None
    }
}

pub fn encoding_label_for_windows_code_page(code_page: u32) -> (r: Option<&'static str>)
    ensures
        match r {
            Some(l) => spec_code_page_label(code_page) == Some(l@),
            None => spec_code_page_label(code_page) is None,
        },
{
    if code_page == 936 {
        Some("GBK")
    } else if code_page == 950 {
        Some("Big5")
    } else if code_page == 932 {
        Some("Shift_JIS")
    } else if code_page == 949 {
        Some("EUC-KR")
    } else if code_page == 874 {
        Some("windows-874")
    } else if code_page == 1250 {
        Some("windows-1250")
    } else if code_page == 1251 {
        Some("windows-1251")
    } else if code_page == 1252 {
        Some("windows-1252")
    } else if code_page == 1253 {
        Some("windows-1253")
    } else if code_page == 1254 {
        Some("windows-1254")
    } else if code_page == 1255 {
        Some("windows-1255")
    } else if code_page == 1256 {
        Some("windows-1256")
    } else if code_page == 1257 {
        Some("windows-1257")
    } else if code_page == 1258 {
        Some("windows-1258")
    } else {
        None
    }
}

/// What `encoding_rs` makes of `bytes` in the encoding with the given
/// label, when the label is known and the bytes decode without malformed
/// sequences.
pub uninterp spec fn ansi_decode(label: Seq<char>, bytes: Seq<u8>) -> Option<Seq<char>>;

/// `encoding_rs::Encoding::for_label(label)` and its `decode(bytes)`: the
/// text when the label names an encoding and nothing was malformed, as
/// `ansi_decode` names it.
#[verifier::external_body]
fn decode_in_encoding(label: &str, bytes: &[u8]) -> (r: Option<String>)
    requires
        bytes@.len() <= usize::MAX / 16,
    ensures
        match r {
            Some(s) => ansi_decode(label@, bytes@) == Some(s@),
            None => ansi_decode(label@, bytes@) is None,
        },
{
    let encoding = encoding_rs::Encoding::for_label(label.as_bytes())?;
    let (text, _, had_errors) = encoding.decode(bytes);
    if had_errors {
        None
    } else {
        Some(text.into_owned())
    }
}

/// The text of an output line: its UTF-8 text when valid, else the ANSI
/// decoding when there is one, else the lossy UTF-8 text.
pub fn choose_line_text(strict: Option<String>, ansi: Option<String>, lossy: String) -> (r: String)
    ensures
        r@ == (match strict {
            Some(s) => s@,
            None => match ansi {
                Some(a) => a@,
                None => lossy@,
            },
        }),
{
    match strict {
        Some(s) => s,
        None => match ansi {
            Some(a) => a,
            None => lossy,
        },
    }
}

/// The encoding label used for the ANSI code page: its own, else GBK.
pub open spec fn ansi_label(code_page: u32) -> Seq<char> {
    match spec_code_page_label(code_page) {
        Some(l) => l,
        None => "GBK"@,
    }
}

/// One line of yt-dlp output as text. `ansi_code_page` is the active ANSI
/// code page where the platform has one (Windows): yt-dlp may write in it
/// when it ignores the request for UTF-8.
pub fn decode_ytdlp_stdout_line(bytes: &[u8], ansi_code_page: Option<u32>) -> (r: String)
    requires
        bytes@.len() <= usize::MAX / 16,
    ensures
        valid_utf8(bytes@) ==> r@ == decode_utf8(bytes@),
        !valid_utf8(bytes@) && ansi_code_page is None ==> r@ == utf8_lossy(bytes@),
        !valid_utf8(bytes@) ==> (ansi_code_page matches Some(cp) ==> r@ == (match ansi_decode(
            ansi_label(cp),
            bytes@,
        ) {
            Some(t) => t,
            None => utf8_lossy(bytes@),
        })),
{
    let strict = utf8_string(slice_vec(bytes, 0, bytes.len()));
    proof {
        assert(bytes@.subrange(0, bytes@.len() as int) =~= bytes@);
    }
    let ansi = match strict {
        Some(_) => None,
        None => match ansi_code_page {
            Some(cp) => {
                let label = match encoding_label_for_windows_code_page(cp) {
                    Some(l) => l,
                    None => "GBK",
                };
                decode_in_encoding(label, bytes)
            },
            None => None,
        },
    };
    let lossy = bytes_to_string(bytes);
    choose_line_text(strict, ansi, lossy)
}

// ---------------------------------------------------------------------
// Task state
// ---------------------------------------------------------------------
/// The most recent non-blank output lines of a yt-dlp run, trimmed, oldest
/// first; at most twenty are kept.
pub struct OutputLines {
    lines: Vec<String>,
}

impl View for OutputLines {
    type V = Seq<Seq<char>>;

    closed spec fn view(&self) -> Seq<Seq<char>> {
        strings_view(self.lines@)
    }
}

/// The lines kept after one more output line.
pub open spec fn remembered(lines: Seq<Seq<char>>, line: Seq<char>) -> Seq<Seq<char>> {
    if trim(line).len() == 0 {
        lines
    } else if lines.len() == 20 {
        lines.drop_first().push(trim(line))
    } else {
        lines.push(trim(line))
    }
}

impl OutputLines {
    pub fn new() -> (r: Self)
        ensures
            r@ == Seq::<Seq<char>>::empty(),
    {
        let r = OutputLines { lines: Vec::new() };
        proof {
            assert(r@ =~= Seq::<Seq<char>>::empty());
        }
        r
    }

    /// Keeps one more output line.
    pub fn remember_ytdlp_output_line(&mut self, line: &str)
        requires
            old(self)@.len() <= 20,
        ensures
            final(self)@ == remembered(old(self)@, line@),
            final(self)@.len() <= 20,
    {
        let t = trim_str(line);
        if t.len() == 0 {
            return;
        }
        let ghost before = self.lines@;
        if self.lines.len() == 20 {
            self.lines.remove(0);
        }
        let ghost mid = self.lines@;
        self.lines.push(string_of(&t));
        proof {
            if before.len() == 20 {
                assert(mid =~= before.drop_first());
                assert(strings_view(self.lines@) =~= strings_view(before).drop_first().push(t@));
            } else {
                assert(strings_view(self.lines@) =~= strings_view(before).push(t@));
            }
        }
    }

    /// The kept lines joined with line breaks, unless they are blank.
    pub fn ytdlp_error_message(&self) -> (r: Option<String>)
        ensures
            match r {
                Some(m) => m@ == crate::text::join_with(self@, seq!['\n']) && trim(m@).len() > 0,
                None => trim(crate::text::join_with(self@, seq!['\n'])).len() == 0,
            },
    {
        let mut parts: Vec<Vec<char>> = Vec::new();
        let mut i: usize = 0;
        while i < self.lines.len()
            invariant
                i <= self.lines@.len(),
                views(parts@) == strings_view(self.lines@).take(i as int),
            decreases self.lines.len() - i,
        {
            let c = chars_of(self.lines[i].as_str());
            let ghost before = parts@;
            parts.push(c);
            proof {
                assert(views(parts@) =~= views(before).push(c@));
                assert(strings_view(self.lines@).take(i + 1) =~= strings_view(self.lines@).take(i as int).push(self.lines@[i as int]@));
            }
            i = i + 1;
        }
        proof {
            assert(strings_view(self.lines@).take(i as int) =~= self@);
        }
        let nl: Vec<char> = vec!['\n'];
        proof {
            assert(nl@ =~= seq!['\n']);
        }
        let joined = crate::text::join_chars(&parts, &nl);
        let t = trim_chars(&joined);
        if t.len() == 0 {
            None
        } else {
            Some(string_of(&joined))
        }
    }
}

/// A yt-dlp run still owns its task while the task runs under the run's
/// process id.
pub fn ytdlp_spawn_owns_task_with(
    status: crate::models::DownloadStatus,
    engine_task_id: Option<&str>,
    pid: &str,
) -> (r: bool)
    ensures
        r == (status == crate::models::DownloadStatus::Running && (engine_task_id matches Some(
            current,
        ) && current@ == pid@)),
{
    if status != crate::models::DownloadStatus::Running {
        return false;
    }
    match engine_task_id {
        Some(current) => {
            let a = chars_of(current);
            let b = chars_of(pid);
            seq_eq(&a, &b)
        },
        None => false,
    }
}

/// The speed shown for a yt-dlp task on refresh: its last speed while it
/// runs, else zero.
pub fn ytdlp_refresh_speed(status: crate::models::DownloadStatus, speed_bytes_per_sec: i64) -> (r: i64)
    ensures
        r == (if status == crate::models::DownloadStatus::Running {
            speed_bytes_per_sec
        } else {
            0
        }),
{
    if status == crate::models::DownloadStatus::Running {
        speed_bytes_per_sec
    } else {
        0
    }
}

/// The process id of a yt-dlp task (`str::parse::<NonZeroU32>`).
pub open spec fn spec_pid(text: Seq<char>) -> Option<u32> {
    match parse_i64_spec(text) {
        Some(v) => if 1 <= v <= u32::MAX {
            Some(v as u32)
        } else {
            None
        },
        None => None,
    }
}

pub fn parse_ytdlp_pid(text: &str) -> (r: Option<u32>)
    ensures
        r == spec_pid(text@),
{
    let v = chars_of(text);
    match parse_i64(&v) {
        Some(n) => if 1 <= n && n <= 4294967295 {
            Some(n as u32)
        } else {
            None
        },
        None => None,
    }
}


// ---------------------------------------------------------------------
// The states of a yt-dlp task
// ---------------------------------------------------------------------
/// The ffmpeg that a task's arguments, else the configured arguments, point
/// yt-dlp to.
pub fn ytdlp_ffmpeg_location_for(task_args: &str, default_args: &str) -> (r: Option<String>)
    ensures
        match ffmpeg_location_from(tokens(task_args@), 0) {
            Some(l) => r matches Some(v) && v@ == l,
            None => match ffmpeg_location_from(tokens(default_args@), 0) {
                Some(l) => r matches Some(v) && v@ == l,
                None => r is None,
            },
        },
{
    match ytdlp_ffmpeg_location(task_args) {
        Some(l) => Some(l),
        None => ytdlp_ffmpeg_location(default_args),
    }
}

/// Whether yt-dlp has an ffmpeg: where one is named, whether it is there;
/// else whether one lies next to yt-dlp or on the search path.
pub fn ytdlp_ffmpeg_requirement(named_exists: Option<bool>, next_to_executable: bool, on_path: bool) -> (r: Result<(), &'static str>)
    ensures
        r is Ok <==> (match named_exists {
            Some(e) => e,
            None => next_to_executable || on_path,
        }),
        r matches Err(m) ==> m@
            == "yt-dlp requires ffmpeg, but ffmpeg was not found. Install ffmpeg, add it to PATH, place it next to yt-dlp, or set --ffmpeg-location."@,
{
    let available = match named_exists {
        Some(e) => e,
        None => next_to_executable || on_path,
    };
    if available {
        Ok(())
    } else {
        Err(
            "yt-dlp requires ffmpeg, but ffmpeg was not found. Install ffmpeg, add it to PATH, place it next to yt-dlp, or set --ffmpeg-location.",
        )
    }
}

/// A paused yt-dlp task: its process is gone, so it keeps no engine id.
pub fn ytdlp_pause_state(task: &TaskSnapshot) -> (r: EngineTaskState)
    ensures
        r.status == DownloadStatus::Paused,
        r.progress == ProgressValue::Kept,
        r.speed_bytes_per_sec == 0,
        r.downloaded_bytes == task.downloaded_bytes && r.total_bytes == task.total_bytes,
        r.engine_task_id is None && r.file_name is None && r.error_message is None,
{
    EngineTaskState {
        status: DownloadStatus::Paused,
        progress: ProgressValue::Kept,
        speed_bytes_per_sec: 0,
        downloaded_bytes: task.downloaded_bytes,
        total_bytes: task.total_bytes,
        engine_task_id: None,
        file_name: None,
        error_message: None,
    }
}

/// A refreshed yt-dlp task keeps what its run last wrote: the run alone
/// decides its status; the speed shows only while it runs.
pub fn ytdlp_refresh_state(
    status: DownloadStatus,
    speed_bytes_per_sec: i64,
    task: &TaskSnapshot,
    error_message: Option<String>,
) -> (r: EngineTaskState)
    ensures
        r.status == status,
        r.progress == ProgressValue::Kept,
        r.speed_bytes_per_sec == (if status == DownloadStatus::Running {
            speed_bytes_per_sec
        } else {
            0
        }),
        r.downloaded_bytes == task.downloaded_bytes && r.total_bytes == task.total_bytes,
        opt_view(r.engine_task_id) == opt_view(task.engine_task_id),
        r.file_name is None,
        r.error_message == error_message,
{
    EngineTaskState {
        status,
        progress: ProgressValue::Kept,
        speed_bytes_per_sec: ytdlp_refresh_speed(status, speed_bytes_per_sec),
        downloaded_bytes: task.downloaded_bytes,
        total_bytes: task.total_bytes,
        engine_task_id: copy_opt(&task.engine_task_id),
        file_name: None,
        error_message,
    }
}

/// Deleting a yt-dlp task stops its process unless it has finished, failed
/// or been paused.
pub fn ytdlp_delete_terminates(status: DownloadStatus) -> (r: bool)
    ensures
        r == !(status == DownloadStatus::Completed || status == DownloadStatus::Failed || status
            == DownloadStatus::Paused),
{
    !(status == DownloadStatus::Completed || status == DownloadStatus::Failed || status == DownloadStatus::Paused)
}

/// How a yt-dlp run ended: completed where it exited successfully, else
/// failed with what it last printed.
pub fn ytdlp_run_outcome(exited_successfully: bool, output_error: Option<String>) -> (r: (DownloadStatus, Option<String>))
    ensures
        exited_successfully ==> r.0 == DownloadStatus::Completed && r.1 is None,
        !exited_successfully ==> r.0 == DownloadStatus::Failed && r.1 == output_error,
{
    if exited_successfully {
        (DownloadStatus::Completed, None)
    } else {
        (DownloadStatus::Failed, output_error)
    }
}

/// What a finished run writes, where it still owns its task: full progress
/// and all bytes (where the total is known) on completion, else the task's
/// own progress and bytes.
pub fn ytdlp_completion_update(
    task_status: DownloadStatus,
    engine_task_id: Option<&str>,
    pid: &str,
    status: DownloadStatus,
    downloaded_bytes: i64,
    total_bytes: i64,
) -> (r: Option<(ProgressValue, i64)>)
    ensures
        !(task_status == DownloadStatus::Running && (engine_task_id matches Some(current) && current@ == pid@))
            ==> r is None,
        (task_status == DownloadStatus::Running && (engine_task_id matches Some(current) && current@ == pid@))
            ==> r == Some((
            if status == DownloadStatus::Completed {
                ProgressValue::Full
            } else {
                ProgressValue::Kept
            },
            if status == DownloadStatus::Completed && total_bytes > 0 {
                total_bytes
            } else {
                downloaded_bytes
            },
        )),
{
    if !ytdlp_spawn_owns_task_with(task_status, engine_task_id, pid) {
        return None;
    }
    let progress = if status == DownloadStatus::Completed {
        ProgressValue::Full
    } else {
        ProgressValue::Kept
    };
    let downloaded = if status == DownloadStatus::Completed && total_bytes > 0 {
        total_bytes
    } else {
        downloaded_bytes
    };
    Some((progress, downloaded))
}


// ---------------------------------------------------------------------
// Reading a run's output and stopping it
// ---------------------------------------------------------------------
/// A line of output without the line breaks at its end.
pub open spec fn spec_trim_line_ending(bytes: Seq<u8>) -> Seq<u8>
    decreases bytes.len(),
{
    if bytes.len() > 0 && (bytes.last() == 10u8 || bytes.last() == 13u8) {
        spec_trim_line_ending(bytes.drop_last())
    } else {
        bytes
    }
}

pub fn trim_line_ending(bytes: &[u8]) -> (r: Vec<u8>)
    ensures
        r@ == spec_trim_line_ending(bytes@),
{
    let mut n: usize = bytes.len();
    proof {
        assert(bytes@.take(n as int) =~= bytes@);
    }
    while n > 0 && (bytes[n - 1] == 10u8 || bytes[n - 1] == 13u8)
        invariant
            n <= bytes@.len(),
            spec_trim_line_ending(bytes@) == spec_trim_line_ending(bytes@.take(n as int)),
        decreases n,
    {
        proof {
            assert(bytes@.take(n as int).drop_last() =~= bytes@.take(n - 1));
        }
        n = n - 1;
    }
    let mut r: Vec<u8> = Vec::new();
    let mut i: usize = 0;
    while i < n
        invariant
            i <= n,
            n <= bytes@.len(),
            r@ == bytes@.take(i as int),
        decreases n - i,
    {
        r.push(bytes[i]);
        proof {
            assert(bytes@.take(i + 1) =~= bytes@.take(i as int).push(bytes@[i as int]));
        }
        i = i + 1;
    }
    r
}

/// The name a task takes from a line of output: a destination that is not
/// one of the single-format streams merged later.
pub open spec fn spec_line_file_name(line: Seq<char>) -> Option<Seq<char>> {
    match spec_destination_name(line) {
        Some(n) => if spec_format_temp_name(n) {
            None
        } else {
            Some(n)
        },
        None => None,
    }
}

pub fn ytdlp_line_file_name(line: &str) -> (r: Option<String>)
    ensures
        match r {
            Some(n) => spec_line_file_name(line@) == Some(n@),
            None => spec_line_file_name(line@) is None,
        },
{
    match parse_ytdlp_destination_name(line) {
        Some(n) => if is_ytdlp_format_temp_file_name(n.as_str()) {
            None
        } else {
            Some(n)
        },
        None => None,
    }
}

/// What follows a failed attempt to stop a yt-dlp process.
#[derive(Debug, PartialEq, Eq)]
pub enum KillStep {
    /// The process is gone: stopping it succeeded.
    Gone,
    /// Try again after a pause.
    Retry,
    /// Give up, with this error.
    GiveUp(String),
}

/// The attempts to stop a yt-dlp process: how many failed, and the last
/// error text the system printed.
pub struct KillAttempts {
    pub failed: u32,
    pub last_stderr: String,
}

pub open spec fn kill_attempts_allowed() -> u32 {
    3
}

impl KillAttempts {
    pub fn new() -> (r: Self)
        ensures
            r.failed == 0,
            r.last_stderr@ == Seq::<char>::empty(),
    {
        KillAttempts { failed: 0, last_stderr: string_of(&Vec::new()) }
    }

    /// After an attempt failed: done if the process is gone; else the error
    /// text is kept where there is one, and after three attempts the stop
    /// fails.
    pub fn after_failure(&mut self, pid: u32, still_alive: bool, stderr: &str) -> (r: KillStep)
        requires
            old(self).failed < kill_attempts_allowed(),
        ensures
            !still_alive ==> r == KillStep::Gone && *final(self) == *old(self),
            still_alive ==> final(self).failed == old(self).failed + 1,
            still_alive ==> final(self).last_stderr@ == (if trim(stderr@).len() > 0 {
                trim(stderr@)
            } else {
                old(self).last_stderr@
            }),
            still_alive && final(self).failed < kill_attempts_allowed() ==> r == KillStep::Retry,
            still_alive && final(self).failed == kill_attempts_allowed() ==> (r matches KillStep::GiveUp(m)
                && m@ == "failed to stop yt-dlp process "@ + crate::text::dec(pid as nat)
                + " after 3 attempts: "@ + (if final(self).last_stderr@.len() == 0 {
                "<no taskkill stderr>"@
            } else {
                final(self).last_stderr@
            })),
    {
        if !still_alive {
            return KillStep::Gone;
        }
        let t = trim_str(stderr);
        if t.len() > 0 {
            self.last_stderr = string_of(&t);
        }
        self.failed = self.failed + 1;
        if self.failed < 3 {
            return KillStep::Retry;
        }
        let mut m = chars_of("failed to stop yt-dlp process ");
        crate::text::extend_vec(&mut m, &crate::text::format_u64(pid as u64));
        crate::text::extend_vec(&mut m, &chars_of(" after 3 attempts: "));
        let detail = chars_of(self.last_stderr.as_str());
        if detail.len() == 0 {
            crate::text::extend_vec(&mut m, &chars_of("<no taskkill stderr>"));
        } else {
            crate::text::extend_vec(&mut m, &detail);
        }
        KillStep::GiveUp(string_of(&m))
    }
}

/// Whether the process list that `tasklist` printed still shows the
/// process: its id appears in it.
pub fn tasklist_shows_pid(output: &str, pid: &str) -> (r: bool)
    ensures
        r == crate::text::contains_seq(output@, pid@),
{
    crate::text::contains(&chars_of(output), &chars_of(pid))
}

} // verus!
