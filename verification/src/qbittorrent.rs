//! The qBittorrent engine's part of the logic: its Web API addresses, how
//! its torrent states map to task states, the forms that add and steer a
//! torrent, and the remote directory listing.
use crate::adapters::{copy_opt, opt_view, parse_magnet_hash, spec_magnet_hash, EngineTaskState, ProgressValue, TaskSnapshot};
use crate::models::{DownloadStatus, RemoteDirectoryEntry};
use crate::text::{
    lemma_lex_irreflexive, lemma_lex_total, lemma_lex_trans, lex_less, lex_lt,
    chars_of, contains, contains_seq, eq_ic, eq_ignore_ascii_case, extend_vec, format_i64, is_sep,
    join_chars, join_with, lower_seq, seq_eq, slice_vec, split_chars, split_seq, string_of,
    to_ascii_lowercase, to_lowercase, trim, trim_end_any, trim_end_any_chars, trim_str,
    unicode_lower, views, dec_int,
};
use vstd::prelude::*;

verus! {

/// The address of a Web API endpoint: the connection address without its
/// trailing `/`s, then `/api/v2/` and the endpoint.
pub open spec fn spec_qbittorrent_url(connection_url: Option<Seq<char>>, endpoint: Seq<char>) -> Option<Seq<char>> {
    match connection_url {
        Some(u) => Some(trim_end_any(u, seq!['/']) + "/api/v2/"@ + endpoint),
        None => None,
    }
}

pub fn qbittorrent_url(connection_url: Option<&str>, endpoint: &str) -> (r: Result<String, &'static str>)
    ensures
        match r {
            Ok(u) => spec_qbittorrent_url(
                match connection_url {
                    Some(c) => Some(c@),
                    None => None,
                },
                endpoint@,
            ) == Some(u@),
            Err(m) => connection_url is None && m@ == "qBittorrent connection url is required"@,
        },
{
    match connection_url {
        Some(u) => {
            let slash = vec!['/'];
            let mut base = trim_end_any_chars(&chars_of(u), &slash);
            proof {
                assert(slash@ =~= seq!['/']);
            }
            extend_vec(&mut base, &chars_of("/api/v2/"));
            extend_vec(&mut base, &chars_of(endpoint));
            Ok(string_of(&base))
        },
        None => Err("qBittorrent connection url is required"),
    }
}

/// The task status for a qBittorrent torrent state: complete once fully
/// downloaded; else paused, failed (an error or missing files) or running
/// by the state's name in any ASCII case.
pub open spec fn spec_qbittorrent_state(state: Seq<char>, fully_downloaded: bool) -> DownloadStatus {
    let s = lower_seq(state);
    if fully_downloaded {
        DownloadStatus::Completed
    } else if contains_seq(s, "paused"@) {
        DownloadStatus::Paused
    } else if contains_seq(s, "error"@) || contains_seq(s, "missing"@) {
        DownloadStatus::Failed
    } else {
        DownloadStatus::Running
    }
}

/// What a torrent's state means for its task: a fully downloaded torrent
/// is completed; otherwise it is paused exactly where its state (in any
/// case) says `paused`, failed where it says `error` or `missing` and not
/// `paused`, and running in every other state (`downloading`, `stalledDL`,
/// `queuedDL`, `metaDL` and the like).
pub proof fn lemma_qbittorrent_state_law(state: Seq<char>, fully_downloaded: bool)
    ensures
        fully_downloaded ==> spec_qbittorrent_state(state, fully_downloaded) == DownloadStatus::Completed,
        !fully_downloaded ==> (spec_qbittorrent_state(state, fully_downloaded) == DownloadStatus::Paused
            <==> contains_seq(lower_seq(state), "paused"@)),
        !fully_downloaded ==> (spec_qbittorrent_state(state, fully_downloaded) == DownloadStatus::Failed
            <==> (!contains_seq(lower_seq(state), "paused"@) && (contains_seq(lower_seq(state), "error"@)
            || contains_seq(lower_seq(state), "missing"@)))),
        !fully_downloaded && !contains_seq(lower_seq(state), "paused"@) && !contains_seq(lower_seq(state), "error"@)
            && !contains_seq(lower_seq(state), "missing"@) ==> spec_qbittorrent_state(state, fully_downloaded)
            == DownloadStatus::Running,
{
}

/// The task status for a torrent state; `fully_downloaded` says whether the
/// torrent's reported progress has reached 1.
pub fn qbittorrent_state(state: &str, fully_downloaded: bool) -> (r: DownloadStatus)
    ensures
        r == spec_qbittorrent_state(state@, fully_downloaded),
{
    if fully_downloaded {
        return DownloadStatus::Completed;
    }
    let s = to_ascii_lowercase(&chars_of(state));
    if contains(&s, &chars_of("paused")) {
        DownloadStatus::Paused
    } else if contains(&s, &chars_of("error")) || contains(&s, &chars_of("missing")) {
        DownloadStatus::Failed
    } else {
        DownloadStatus::Running
    }
}

/// What qBittorrent reports of a torrent.
pub struct QbTorrentInfo {
    pub name: String,
    /// Whether the reported progress has reached 1.
    pub fully_downloaded: bool,
    pub dlspeed: i64,
    pub downloaded: i64,
    pub total_size: i64,
    pub state: String,
}

/// A task's state from qBittorrent's report of its torrent: the mapped
/// status, the reported progress, speed and bytes, the torrent's name, and
/// the task's own hash.
pub fn qbittorrent_refresh_state(info: &QbTorrentInfo, task: &TaskSnapshot) -> (r: EngineTaskState)
    ensures
        r.status == spec_qbittorrent_state(info.state@, info.fully_downloaded),
        r.progress == ProgressValue::Reported,
        r.speed_bytes_per_sec == info.dlspeed,
        r.downloaded_bytes == info.downloaded,
        r.total_bytes == info.total_size,
        opt_view(r.engine_task_id) == opt_view(task.engine_task_id),
        opt_view(r.file_name) == Some(info.name@),
        r.error_message is None,
{
    EngineTaskState {
        status: qbittorrent_state(info.state.as_str(), info.fully_downloaded),
        progress: ProgressValue::Reported,
        speed_bytes_per_sec: info.dlspeed,
        downloaded_bytes: info.downloaded,
        total_bytes: info.total_size,
        engine_task_id: copy_opt(&task.engine_task_id),
        file_name: Some(string_of(&chars_of(info.name.as_str()))),
        error_message: None,
    }
}

/// The name that a magnet link has resolved to: the torrent's name,
/// trimmed, once it is neither empty nor the hash itself.
pub open spec fn spec_resolved_name(name: Seq<char>, hash: Seq<char>) -> Option<Seq<char>> {
    let t = trim(name);
    if t.len() > 0 && !eq_ic(t, hash) {
        Some(t)
    } else {
        None
    }
}

pub fn qbittorrent_resolved_name(name: &str, hash: &str) -> (r: Option<String>)
    ensures
        match r {
            Some(n) => spec_resolved_name(name@, hash@) == Some(n@),
            None => spec_resolved_name(name@, hash@) is None,
        },
{
    let t = trim_str(name);
    if t.len() > 0 && !eq_ignore_ascii_case(&t, &chars_of(hash)) {
        Some(string_of(&t))
    } else {
        None
    }
}

/// Whether a login that qBittorrent answered with a success status is
/// accepted: every answer is, an empty one included, except the refusal
/// `Fails.` that qBittorrent gives for a wrong user name or password.
pub fn qbittorrent_login_accepted(body: &str) -> (r: bool)
    ensures
        r == (trim(body@) != "Fails."@),
{
    !seq_eq(&trim_str(body), &chars_of("Fails."))
}

// ---------------------------------------------------------------------
// Adding a torrent
// ---------------------------------------------------------------------
/// The text fields of the form that adds a torrent: paused where files are
/// to be chosen first, the save path where one is given, and the limits
/// that are set. `ratio_limit` is the ratio as text, where it is positive.
pub open spec fn spec_add_form(
    has_selection: bool,
    save_path: Seq<char>,
    download_limit: i64,
    upload_limit: i64,
    ratio_limit: Option<Seq<char>>,
    seed_time_limit_minutes: i64,
) -> Seq<(Seq<char>, Seq<char>)> {
    let f0 = seq![("paused"@, if has_selection {
        "true"@
    } else {
        "false"@
    })];
    let f1 = if trim(save_path).len() > 0 {
        f0.push(("savepath"@, trim(save_path)))
    } else {
        f0
    };
    let f2 = if download_limit > 0 {
        f1.push(("dlLimit"@, dec_int(download_limit as int)))
    } else {
        f1
    };
    let f3 = if upload_limit > 0 {
        f2.push(("upLimit"@, dec_int(upload_limit as int)))
    } else {
        f2
    };
    let f4 = match ratio_limit {
        Some(r) => f3.push(("ratioLimit"@, r)),
        None => f3,
    };
    if seed_time_limit_minutes > 0 {
        f4.push(("seedingTimeLimit"@, dec_int(seed_time_limit_minutes as int)))
    } else {
        f4
    }
}

pub open spec fn field_views(v: Seq<(String, String)>) -> Seq<(Seq<char>, Seq<char>)> {
    v.map_values(|f: (String, String)| (f.0@, f.1@))
}

fn field(name: &str, value: Vec<char>) -> (r: (String, String))
    ensures
        r.0@ == name@,
        r.1@ == value@,
{
    (string_of(&chars_of(name)), string_of(&value))
}

pub fn qbittorrent_add_form(
    has_selection: bool,
    save_path: &str,
    download_limit: i64,
    upload_limit: i64,
    ratio_limit: Option<&str>,
    seed_time_limit_minutes: i64,
) -> (r: Vec<(String, String)>)
    ensures
        field_views(r@) == spec_add_form(
            has_selection,
            save_path@,
            download_limit,
            upload_limit,
            match ratio_limit {
                Some(t) => Some(t@),
                None => None,
            },
            seed_time_limit_minutes,
        ),
{
    let mut r: Vec<(String, String)> = Vec::new();
    r.push(field("paused", if has_selection {
        chars_of("true")
    } else {
        chars_of("false")
    }));
    let ghost f0 = field_views(r@);
    let sp = trim_str(save_path);
    if sp.len() > 0 {
        r.push(field("savepath", sp));
    }
    let ghost f1 = field_views(r@);
    if download_limit > 0 {
        r.push(field("dlLimit", format_i64(download_limit)));
    }
    let ghost f2 = field_views(r@);
    if upload_limit > 0 {
        r.push(field("upLimit", format_i64(upload_limit)));
    }
    let ghost f3 = field_views(r@);
    match ratio_limit {
        Some(t) => r.push(field("ratioLimit", chars_of(t))),
        None => {},
    }
    let ghost f4 = field_views(r@);
    if seed_time_limit_minutes > 0 {
        r.push(field("seedingTimeLimit", format_i64(seed_time_limit_minutes)));
    }
    proof {
        assert(field_views(r@) =~= spec_add_form(
            has_selection,
            save_path@,
            download_limit,
            upload_limit,
            match ratio_limit {
                Some(t) => Some(t@),
                None => None,
            },
            seed_time_limit_minutes,
        ));
    }
    r
}

/// Whether a torrent is resumed once it is added: only one added paused so
/// that its files could be chosen first; one added running needs nothing
/// more.
pub fn qbittorrent_resume_after_add(has_selection: bool) -> (r: bool)
    ensures
        r == has_selection,
{
    has_selection
}

/// The hash that an added magnet link or address goes by: the link's hash,
/// else the source itself.
pub fn qbittorrent_source_hash(source: &str) -> (r: String)
    ensures
        r@ == (match spec_magnet_hash(source@) {
            Some(h) => h,
            None => source@,
        }),
{
    match parse_magnet_hash(source) {
        Some(h) => h,
        None => string_of(&chars_of(source)),
    }
}

// ---------------------------------------------------------------------
// Choosing files
// ---------------------------------------------------------------------
/// `i - 1`, kept at the least `i64`.
pub open spec fn minus_one(i: i64) -> int {
    if i == i64::MIN {
        i64::MIN as int
    } else {
        i - 1
    }
}

/// Whether a file, by qBittorrent's index from 0, is among the files chosen
/// by their numbers from 1.
pub open spec fn chosen(selected: Seq<i64>, index: i64) -> bool {
    exists|j: int| 0 <= j < selected.len() && minus_one(selected[j]) == index
}

/// The files of one priority group, as the indexes joined by `|`.
pub open spec fn group(files: Seq<i64>, selected: Seq<i64>, want: bool) -> Seq<Seq<char>>
    decreases files.len(),
{
    if files.len() == 0 {
        Seq::empty()
    } else {
        let rest = group(files.drop_last(), selected, want);
        if chosen(selected, files.last()) == want {
            rest.push(dec_int(files.last() as int))
        } else {
            rest
        }
    }
}

fn is_chosen(selected: &[i64], index: i64) -> (r: bool)
    ensures
        r == chosen(selected@, index),
{
    let mut j: usize = 0;
    while j < selected.len()
        invariant
            j <= selected@.len(),
            forall|k: int| 0 <= k < j ==> minus_one(selected@[k]) != index,
        decreases selected.len() - j,
    {
        let s = selected[j];
        let m: i64 = if s == i64::MIN {
            i64::MIN
        } else {
            s - 1
        };
        if m == index {
            return true;
        }
        j = j + 1;
    }
    false
}

/// The files to download and those to skip, by qBittorrent's indexes from
/// 0 joined with `|`, from the numbers from 1 of the chosen files.
pub fn qbittorrent_priority_groups(file_indexes: &[i64], selected: &[i64]) -> (r: (String, String))
    ensures
        r.0@ == join_with(group(file_indexes@, selected@, true), seq!['|']),
        r.1@ == join_with(group(file_indexes@, selected@, false), seq!['|']),
{
    let mut yes: Vec<Vec<char>> = Vec::new();
    let mut no: Vec<Vec<char>> = Vec::new();
    let mut i: usize = 0;
    proof {
        assert(file_indexes@.take(0) =~= Seq::<i64>::empty());
    }
    while i < file_indexes.len()
        invariant
            i <= file_indexes@.len(),
            views(yes@) == group(file_indexes@.take(i as int), selected@, true),
            views(no@) == group(file_indexes@.take(i as int), selected@, false),
        decreases file_indexes.len() - i,
    {
        let k = file_indexes[i];
        proof {
            assert(file_indexes@.take(i + 1).drop_last() =~= file_indexes@.take(i as int));
        }
        let text = format_i64(k);
        if is_chosen(selected, k) {
            let ghost b = yes@;
            yes.push(text);
            proof {
                assert(views(yes@) =~= views(b).push(text@));
            }
        } else {
            let ghost b = no@;
            no.push(text);
            proof {
                assert(views(no@) =~= views(b).push(text@));
            }
        }
        i = i + 1;
    }
    proof {
        assert(file_indexes@.take(file_indexes@.len() as int) =~= file_indexes@);
    }
    let bar = vec!['|'];
    let y = join_chars(&yes, &bar);
    let n = join_chars(&no, &bar);
    proof {
        assert(bar@ =~= seq!['|']);
    }
    (string_of(&y), string_of(&n))
}

// ---------------------------------------------------------------------
// Remote directories
// ---------------------------------------------------------------------
/// The last part of a remote path, after its trailing separators are taken
/// off; the path itself where that part is empty.
pub open spec fn spec_remote_path_name(path: Seq<char>) -> Seq<char> {
    let parts = split_seq(trim_end_any(path, seq!['/', '\\']), false, seq!['/', '\\']);
    if parts.last().len() > 0 {
        parts.last()
    } else {
        path
    }
}

pub fn remote_path_name(path: &str) -> (r: String)
    ensures
        r@ == spec_remote_path_name(path@),
{
    let seps = vec!['/', '\\'];
    let v = chars_of(path);
    let t = trim_end_any_chars(&v, &seps);
    let parts = split_chars(&t, false, &seps);
    proof {
        assert(seps@ =~= seq!['/', '\\']);
        crate::text::lemma_split_nonempty(t@, false, seps@);
    }
    let last = parts.len() - 1;
    if parts[last].len() > 0 {
        string_of(&parts[last])
    } else {
        string_of(&v)
    }
}


/// Entry `x` comes before entry `y`: by key, and by place where the keys
/// are equal.
pub open spec fn comes_before(keys: Seq<Seq<char>>, x: int, y: int) -> bool {
    lex_lt(keys[x], keys[y]) || (keys[x] == keys[y] && x < y)
}

proof fn lemma_before_trans(keys: Seq<Seq<char>>, x: int, y: int, z: int)
    requires
        comes_before(keys, x, y),
        comes_before(keys, y, z),
    ensures
        comes_before(keys, x, z),
{
    if lex_lt(keys[x], keys[y]) && lex_lt(keys[y], keys[z]) {
        lemma_lex_trans(keys[x], keys[y], keys[z]);
    }
}

/// `order` lists the places of all entries sorted by key, equal keys in
/// their given order (a stable sort).
pub open spec fn sorted_order(keys: Seq<Seq<char>>, order: Seq<usize>) -> bool {
    &&& order.len() == keys.len()
    &&& forall|i: int| 0 <= i < order.len() ==> order[i] < keys.len()
    &&& forall|i: int, j: int|
        0 <= i < j < order.len() ==> comes_before(keys, #[trigger] order[i] as int, #[trigger] order[j] as int)
}

/// A sorted order names every entry at most once.
pub proof fn lemma_sorted_order_distinct(keys: Seq<Seq<char>>, order: Seq<usize>)
    requires
        sorted_order(keys, order),
    ensures
        forall|i: int, j: int| 0 <= i < order.len() && 0 <= j < order.len() && i != j ==> order[i] != order[j],
{
    assert forall|i: int, j: int| 0 <= i < order.len() && 0 <= j < order.len() && i != j implies order[i] != order[j] by {
        let (a, b) = if i < j { (i, j) } else { (j, i) };
        assert(comes_before(keys, order[a] as int, order[b] as int));
        if order[a] == order[b] {
            lemma_lex_irreflexive(keys[order[a] as int]);
        }
    }
}

/// The places of the entries in the order of their keys.
pub fn stable_order(keys: &Vec<Vec<char>>) -> (r: Vec<usize>)
    ensures
        sorted_order(views(keys@), r@),
{
    let ghost ks = views(keys@);
    let mut order: Vec<usize> = Vec::new();
    let mut x: usize = 0;
    while x < keys.len()
        invariant
            x <= keys@.len(),
            ks == views(keys@),
            order@.len() == x,
            forall|i: int| 0 <= i < order@.len() ==> order@[i] < x,
            forall|i: int, j: int|
                0 <= i < j < order@.len() ==> comes_before(ks, #[trigger] order@[i] as int, #[trigger] order@[j] as int),
        decreases keys.len() - x,
    {
        let mut p: usize = 0;
        while p < order.len() && !lex_less(&keys[x], &keys[order[p]])
            invariant
                p <= order@.len(),
                x < keys@.len(),
                ks == views(keys@),
                forall|i: int| 0 <= i < order@.len() ==> order@[i] < x,
                forall|m: int| 0 <= m < p ==> comes_before(ks, #[trigger] order@[m] as int, x as int),
            decreases order.len() - p,
        {
            proof {
                let o = order@[p as int] as int;
                lemma_lex_total(ks[x as int], ks[o]);
            }
            p = p + 1;
        }
        let ghost old_order = order@;
        proof {
            if p < old_order.len() {
                assert(lex_lt(ks[x as int], ks[old_order[p as int] as int]));
                assert(comes_before(ks, x as int, old_order[p as int] as int));
                assert forall|q: int| p <= q < old_order.len() implies comes_before(ks, x as int, #[trigger] old_order[q] as int) by {
                    if q > p {
                        lemma_before_trans(ks, x as int, old_order[p as int] as int, old_order[q] as int);
                    }
                }
            }
        }
        order.insert(p, x);
        proof {
            assert(order@ =~= old_order.insert(p as int, x));
            assert forall|i: int, j: int|
                0 <= i < j < order@.len() implies comes_before(ks, #[trigger] order@[i] as int, #[trigger] order@[j] as int) by {
                if j < p {
                    assert(order@[i] == old_order[i] && order@[j] == old_order[j]);
                } else if j == p {
                    assert(order@[i] == old_order[i]);
                } else if i < p {
                    assert(order@[i] == old_order[i] && order@[j] == old_order[j - 1]);
                    assert(comes_before(ks, old_order[i] as int, old_order[j - 1] as int));
                } else if i == p {
                    assert(order@[j] == old_order[j - 1]);
                } else {
                    assert(order@[i] == old_order[i - 1] && order@[j] == old_order[j - 1]);
                }
            }
        }
        x = x + 1;
    }
    order
}

/// The keys that remote directories are sorted by: the Unicode lowercase
/// form of their names.
pub open spec fn directory_keys(paths: Seq<String>) -> Seq<Seq<char>> {
    paths.map_values(|p: String| unicode_lower(spec_remote_path_name(p@)))
}

/// The remote directories that qBittorrent lists, each named by the last
/// part of its path, sorted by the Unicode lowercase form of their names,
/// equal ones in the listed order.
pub fn remote_directory_entries(paths: &[String]) -> (r: Vec<RemoteDirectoryEntry>)
    ensures
        r@.len() == paths@.len(),
        exists|order: Seq<usize>|
            #![trigger sorted_order(directory_keys(paths@), order)]
            sorted_order(directory_keys(paths@), order)
                && forall|i: int|
                0 <= i < r@.len() ==> (#[trigger] r@[i]).path@ == paths@[order[i] as int]@ && r@[i].name@
                    == spec_remote_path_name(paths@[order[i] as int]@),
{
    let ghost keys_spec = directory_keys(paths@);
    let mut names: Vec<String> = Vec::new();
    let mut keys: Vec<Vec<char>> = Vec::new();
    let mut i: usize = 0;
    while i < paths.len()
        invariant
            i <= paths@.len(),
            names@.len() == i,
            keys@.len() == i,
            forall|k: int| 0 <= k < i ==> (#[trigger] names@[k])@ == spec_remote_path_name(paths@[k]@),
            forall|k: int| 0 <= k < i ==> (#[trigger] keys@[k])@ == unicode_lower(spec_remote_path_name(paths@[k]@)),
        decreases paths.len() - i,
    {
        let n = remote_path_name(paths[i].as_str());
        let l = to_lowercase(n.as_str());
        keys.push(chars_of(l.as_str()));
        names.push(n);
        i = i + 1;
    }
    proof {
        assert(views(keys@) =~= keys_spec);
    }
    let order = stable_order(&keys);
    let mut r: Vec<RemoteDirectoryEntry> = Vec::new();
    let mut k: usize = 0;
    while k < order.len()
        invariant
            k <= order@.len(),
            order@.len() == paths@.len(),
            names@.len() == paths@.len(),
            sorted_order(keys_spec, order@),
            forall|m: int| 0 <= m < paths@.len() ==> (#[trigger] names@[m])@ == spec_remote_path_name(paths@[m]@),
            r@.len() == k,
            forall|m: int|
                0 <= m < k ==> (#[trigger] r@[m]).path@ == paths@[order@[m] as int]@ && r@[m].name@
                    == spec_remote_path_name(paths@[order@[m] as int]@),
        decreases order.len() - k,
    {
        let at = order[k];
        r.push(
            RemoteDirectoryEntry {
                name: string_of(&chars_of(names[at].as_str())),
                path: string_of(&chars_of(paths[at].as_str())),
            },
        );
        k = k + 1;
    }
    proof {
        assert(sorted_order(keys_spec, order@));
    }
    r
}


/// The warning logged when a magnet lookup through qBittorrent gives up:
/// the torrent's last state, or that the torrent was not found.
pub fn qbittorrent_give_up_warning(last_state: Option<&str>, hash: &str, of_files: bool) -> (r: String)
    ensures
        r@ == (match last_state {
            Some(s) => (if of_files {
                "magnet metadata files were not resolved: "@
            } else {
                "magnet metadata name was not resolved: "@
            }) + s@,
            None => (if of_files {
                "qBittorrent task not found while resolving magnet files: "@
            } else {
                "qBittorrent task not found while resolving magnet name: "@
            }) + hash@,
        }),
{
    let (mut w, tail) = match last_state {
        Some(s) => (if of_files {
            chars_of("magnet metadata files were not resolved: ")
        } else {
            chars_of("magnet metadata name was not resolved: ")
        }, chars_of(s)),
        None => (if of_files {
            chars_of("qBittorrent task not found while resolving magnet files: ")
        } else {
            chars_of("qBittorrent task not found while resolving magnet name: ")
        }, chars_of(hash)),
    };
    extend_vec(&mut w, &tail);
    string_of(&w)
}

} // verus!
