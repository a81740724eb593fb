//! How lists are stored in single text columns: source types, domains and
//! selected file indexes, comma-separated.
use crate::models::{from_db_chars_source, AppSettings, AppSettingsInput, ModelParseError, SourceType};
use crate::text::{
    chars_of, dec, all_digits, is_digit, lemma_dec_digits, lemma_join_chars, lemma_parse_format_i64,
    lemma_split_join, lemma_trim_no_ws, dec_int, format_i64, is_ws, join_chars, join_with, lemma_split_concat,
    lemma_split_nonempty, lemma_split_single, parse_i64, parse_i64_spec, split_chars, split_seq,
    string_of, to_lowercase, trim, trim_chars, trim_end, trim_start, trim_str, unicode_lower, views,
};
use vstd::prelude::*;

verus! {

pub open spec fn strings(v: Seq<String>) -> Seq<Seq<char>> {
    v.map_values(|s: String| s@)
}

/// The pieces of a stored list: the text split at each comma.
pub open spec fn comma_pieces(value: Seq<char>) -> Seq<Seq<char>> {
    split_seq(value, false, seq![','])
}

fn comma_split(value: &[char]) -> (r: Vec<Vec<char>>)
    ensures
        views(r@) == comma_pieces(value@),
        r@.len() >= 1,
{
    let comma: Vec<char> = vec![','];
    proof {
        assert(comma@ =~= seq![',']);
        lemma_split_nonempty(value@, false, seq![',']);
    }
    split_chars(value, false, &comma)
}

fn join_comma(parts: &[Vec<char>]) -> (r: String)
    ensures
        r@ == join_with(views(parts@), seq![',']),
{
    let comma: Vec<char> = vec![','];
    proof {
        assert(comma@ =~= seq![',']);
    }
    string_of(&join_chars(parts, &comma))
}

// ---------------------------------------------------------------------
// Source types
// ---------------------------------------------------------------------
pub open spec fn source_type_names(types: Seq<SourceType>) -> Seq<Seq<char>> {
    types.map_values(|t: SourceType| t.db_name())
}

/// Source types stored by name, comma-separated.
pub open spec fn spec_encode_source_types(types: Seq<SourceType>) -> Seq<char> {
    join_with(source_type_names(types), seq![','])
}

pub fn encode_source_types(source_types: &[SourceType]) -> (r: String)
    ensures
        r@ == spec_encode_source_types(source_types@),
{
    let mut parts: Vec<Vec<char>> = Vec::new();
    let mut i: usize = 0;
    while i < source_types.len()
        invariant
            i <= source_types@.len(),
            views(parts@) == source_type_names(source_types@.take(i as int)),
        decreases source_types.len() - i,
    {
        let name = chars_of(source_types[i].as_db());
        let ghost before = parts@;
        parts.push(name);
        proof {
            assert(views(parts@) =~= views(before).push(name@));
            assert(source_types@.take(i + 1) =~= source_types@.take(i as int).push(source_types@[i as int]));
            assert(views(parts@) =~= source_type_names(source_types@.take(i + 1)));
        }
        i = i + 1;
    }
    proof {
        assert(source_types@.take(i as int) =~= source_types@);
    }
    join_comma(&parts)
}

/// The source types named by the trimmed pieces, or the first piece that
/// names none.
pub open spec fn decode_names(pieces: Seq<Seq<char>>) -> Result<Seq<SourceType>, Seq<char>>
    decreases pieces.len(),
{
    if pieces.len() == 0 {
        Ok(Seq::empty())
    } else {
        match SourceType::parse_db(trim(pieces[0])) {
            None => Err(trim(pieces[0])),
            Some(t) => match decode_names(pieces.drop_first()) {
                Ok(rest) => Ok(seq![t] + rest),
                Err(e) => Err(e),
            },
        }
    }
}

/// Stored source types read back: none from blank text, else the type of
/// each trimmed piece.
pub open spec fn spec_decode_source_types(value: Seq<char>) -> Result<Seq<SourceType>, Seq<char>> {
    if trim(value).len() == 0 {
        Ok(Seq::empty())
    } else {
        decode_names(comma_pieces(value))
    }
}

pub fn decode_source_types(value: &str) -> (r: Result<Vec<SourceType>, ModelParseError>)
    ensures
        match r {
            Ok(v) => spec_decode_source_types(value@) == Ok::<_, Seq<char>>(v@),
            Err(e) => spec_decode_source_types(value@) == Err::<Seq<SourceType>, _>(e.value@)
                && e.field@ == "source_type"@,
        },
{
    if trim_str(value).len() == 0 {
        return Ok(Vec::new());
    }
    let v = chars_of(value);
    let pieces = comma_split(&v);
    let ghost ps = views(pieces@);
    let mut out: Vec<SourceType> = Vec::new();
    let mut i: usize = 0;
    proof {
        assert(ps.skip(0) =~= ps);
        assert(out@ + Seq::<SourceType>::empty() =~= out@);
    }
    while i < pieces.len()
        invariant
            i <= pieces@.len(),
            ps == views(pieces@),
            ps == comma_pieces(value@),
            trim(value@).len() > 0,
            decode_names(ps) == (match decode_names(ps.skip(i as int)) {
                Ok(rest) => Ok(out@ + rest),
                Err(e) => Err(e),
            }),
        decreases pieces.len() - i,
    {
        let t = trim_chars(&pieces[i]);
        let text = string_of(&t);
        proof {
            assert(ps.skip(i as int)[0] == pieces@[i as int]@);
            assert(ps.skip(i as int).drop_first() =~= ps.skip(i + 1));
        }
        match from_db_chars_source(&t, text.as_str()) {
            Ok(st) => {
                proof {
                    match decode_names(ps.skip(i + 1)) {
                        Ok(rest) => {
                            assert(out@.push(st) + rest =~= out@ + (seq![st] + rest));
                        },
                        Err(e) => {},
                    }
                }
                out.push(st);
            },
            Err(e) => {
                return Err(e);
            },
        }
        i = i + 1;
    }
    proof {
        assert(ps.skip(i as int).len() == 0);
        assert(out@ + Seq::<SourceType>::empty() =~= out@);
    }
    Ok(out)
}

// ---------------------------------------------------------------------
// Domains
// ---------------------------------------------------------------------
/// The non-empty texts, in order.
pub open spec fn nonempty_texts(s: Seq<Seq<char>>) -> Seq<Seq<char>> {
    crate::text::nonempty(s)
}

/// Domains stored trimmed and in lowercase, blank ones dropped,
/// comma-separated.
pub open spec fn spec_encode_domains(domains: Seq<Seq<char>>) -> Seq<char> {
    join_with(nonempty_texts(domains.map_values(|d: Seq<char>| unicode_lower(trim(d)))), seq![','])
}

pub fn encode_domains(domains: &[String]) -> (r: String)
    ensures
        r@ == spec_encode_domains(strings(domains@)),
{
    let ghost ds = strings(domains@).map_values(|d: Seq<char>| unicode_lower(trim(d)));
    let mut lowered: Vec<Vec<char>> = Vec::new();
    let mut i: usize = 0;
    while i < domains.len()
        invariant
            i <= domains@.len(),
            ds == strings(domains@).map_values(|d: Seq<char>| unicode_lower(trim(d))),
            views(lowered@) == ds.take(i as int),
        decreases domains.len() - i,
    {
        let t = string_of(&trim_str(domains[i].as_str()));
        let l = chars_of(to_lowercase(t.as_str()).as_str());
        let ghost before = lowered@;
        lowered.push(l);
        proof {
            assert(ds[i as int] == unicode_lower(trim(domains@[i as int]@)));
            assert(views(lowered@) =~= views(before).push(l@));
            assert(ds.take(i + 1) =~= ds.take(i as int).push(ds[i as int]));
        }
        i = i + 1;
    }
    proof {
        assert(ds.take(i as int) =~= ds);
    }
    let kept = crate::text::nonempty_pieces(&lowered);
    join_comma(&kept)
}

/// Stored domains read back: the trimmed pieces that are not empty.
pub open spec fn spec_decode_domains(value: Seq<char>) -> Seq<Seq<char>> {
    nonempty_texts(comma_pieces(value).map_values(|p: Seq<char>| trim(p)))
}

fn strings_of(parts: &[Vec<char>]) -> (r: Vec<String>)
    ensures
        strings(r@) == views(parts@),
{
    let mut out: Vec<String> = Vec::new();
    let mut j: usize = 0;
    while j < parts.len()
        invariant
            j <= parts@.len(),
            strings(out@) == views(parts@).take(j as int),
        decreases parts.len() - j,
    {
        let s = string_of(&parts[j]);
        let ghost before = out@;
        out.push(s);
        proof {
            assert(strings(out@) =~= strings(before).push(s@));
            assert(views(parts@).take(j + 1) =~= views(parts@).take(j as int).push(parts@[j as int]@));
        }
        j = j + 1;
    }
    proof {
        assert(views(parts@).take(j as int) =~= views(parts@));
    }
    out
}

pub fn decode_domains(value: &str) -> (r: Vec<String>)
    ensures
        strings(r@) == spec_decode_domains(value@),
{
    let v = chars_of(value);
    let pieces = comma_split(&v);
    let ghost ts = comma_pieces(value@).map_values(|p: Seq<char>| trim(p));
    let mut trimmed: Vec<Vec<char>> = Vec::new();
    let mut i: usize = 0;
    while i < pieces.len()
        invariant
            i <= pieces@.len(),
            views(pieces@) == comma_pieces(value@),
            ts == comma_pieces(value@).map_values(|p: Seq<char>| trim(p)),
            views(trimmed@) == ts.take(i as int),
        decreases pieces.len() - i,
    {
        let t = trim_chars(&pieces[i]);
        let ghost before = trimmed@;
        trimmed.push(t);
        proof {
            assert(views(pieces@)[i as int] == pieces@[i as int]@);
            assert(views(trimmed@) =~= views(before).push(t@));
            assert(ts.take(i + 1) =~= ts.take(i as int).push(ts[i as int]));
        }
        i = i + 1;
    }
    proof {
        assert(ts.take(i as int) =~= ts);
    }
    let kept = crate::text::nonempty_pieces(&trimmed);
    strings_of(&kept)
}

// ---------------------------------------------------------------------
// Selected file indexes
// ---------------------------------------------------------------------
pub open spec fn index_texts(indexes: Seq<i64>) -> Seq<Seq<char>> {
    indexes.map_values(|i: i64| dec_int(i as int))
}

/// Selected file indexes stored as decimal numbers, comma-separated.
pub open spec fn spec_encode_indexes(indexes: Option<Seq<i64>>) -> Option<Seq<char>> {
    match indexes {
        Some(ix) => Some(join_with(index_texts(ix), seq![','])),
        None => None,
    }
}

pub fn encode_selected_file_indexes(indexes: Option<&[i64]>) -> (r: Option<String>)
    ensures
        match r {
            Some(s) => spec_encode_indexes(match indexes {
                Some(ix) => Some(ix@),
                None => None,
            }) == Some(s@),
            None => indexes is None,
        },
{
    match indexes {
        None => None,
        Some(values) => {
            let mut parts: Vec<Vec<char>> = Vec::new();
            let mut i: usize = 0;
            while i < values.len()
                invariant
                    i <= values@.len(),
                    views(parts@) == index_texts(values@.take(i as int)),
                decreases values.len() - i,
            {
                let text = format_i64(values[i]);
                let ghost before = parts@;
                parts.push(text);
                proof {
                    assert(views(parts@) =~= views(before).push(text@));
                    assert(values@.take(i + 1) =~= values@.take(i as int).push(values@[i as int]));
                    assert(views(parts@) =~= index_texts(values@.take(i + 1)));
                }
                i = i + 1;
            }
            proof {
                assert(values@.take(i as int) =~= values@);
            }
            Some(join_comma(&parts))
        },
    }
}

/// The numbers of the trimmed pieces, or `None` at the first piece that is
/// not an `i64`.
pub open spec fn parse_indexes(pieces: Seq<Seq<char>>) -> Option<Seq<i64>>
    decreases pieces.len(),
{
    if pieces.len() == 0 {
        Some(Seq::empty())
    } else {
        match parse_i64_spec(trim(pieces[0])) {
            None => None,
            Some(v) => match parse_indexes(pieces.drop_first()) {
                Some(rest) => Some(seq![v] + rest),
                None => None,
            },
        }
    }
}

/// Stored selected file indexes read back: none stays none, blank text is
/// an empty selection, else the number of each trimmed piece; `Err` when a
/// piece is not a number.
pub open spec fn spec_decode_indexes(value: Option<Seq<char>>) -> Result<Option<Seq<i64>>, ()> {
    match value {
        None => Ok(None),
        Some(v) => if trim(v).len() == 0 {
            Ok(Some(Seq::empty()))
        } else {
            match parse_indexes(comma_pieces(v)) {
                Some(ix) => Ok(Some(ix)),
                None => Err(()),
            }
        },
    }
}

/// A stored selection piece that is not a number.
#[derive(Debug, Clone, Copy, PartialEq, Eq, Structural)]
pub struct InvalidIndex;

pub fn decode_selected_file_indexes(value: Option<String>) -> (r: Result<Option<Vec<i64>>, InvalidIndex>)
    ensures
        match r {
            Ok(Some(v)) => spec_decode_indexes(match value {
                Some(s) => Some(s@),
                None => None,
            }) == Ok::<_, ()>(Some(v@)),
            Ok(None) => spec_decode_indexes(match value {
                Some(s) => Some(s@),
                None => None,
            }) == Ok::<Option<Seq<i64>>, ()>(None),
            Err(_) => spec_decode_indexes(match value {
                Some(s) => Some(s@),
                None => None,
            }) is Err,
        },
{
    match value {
        None => Ok(None),
        Some(text) => match decode_index_text(text.as_str()) {
            Ok(v) => Ok(Some(v)),
            Err(e) => Err(e),
        },
    }
}

/// The selection stored in a text.
fn decode_index_text(text: &str) -> (r: Result<Vec<i64>, InvalidIndex>)
    ensures
        match r {
            Ok(v) => spec_decode_indexes(Some(text@)) == Ok::<_, ()>(Some(v@)),
            Err(_) => spec_decode_indexes(Some(text@)) is Err,
        },
{
    if trim_str(text).len() == 0 {
        return Ok(Vec::new());
    }
    let v = chars_of(text);
    let pieces = comma_split(&v);
    let ghost ps = views(pieces@);
    let mut out: Vec<i64> = Vec::new();
    let mut i: usize = 0;
    proof {
        assert(ps.skip(0) =~= ps);
        assert(out@ + Seq::<i64>::empty() =~= out@);
    }
    while i < pieces.len()
        invariant
            i <= pieces@.len(),
            ps == views(pieces@),
            ps == comma_pieces(text@),
            trim(text@).len() > 0,
            parse_indexes(ps) == (match parse_indexes(ps.skip(i as int)) {
                Some(rest) => Some(out@ + rest),
                None => None,
            }),
        decreases pieces.len() - i,
    {
        let t = trim_chars(&pieces[i]);
        proof {
            assert(ps.skip(i as int)[0] == pieces@[i as int]@);
            assert(ps.skip(i as int).drop_first() =~= ps.skip(i + 1));
        }
        match parse_i64(&t) {
            Some(n) => {
                proof {
                    match parse_indexes(ps.skip(i + 1)) {
                        Some(rest) => {
                            assert(out@.push(n) + rest =~= out@ + (seq![n] + rest));
                        },
                        None => {},
                    }
                }
                out.push(n);
            },
            None => {
                return Err(InvalidIndex);
            },
        }
        i = i + 1;
    }
    proof {
        assert(ps.skip(i as int).len() == 0);
        assert(out@ + Seq::<i64>::empty() =~= out@);
    }
    Ok(out)
}

// ---------------------------------------------------------------------
// Reading back what was written
// ---------------------------------------------------------------------
pub open spec fn plain_char(c: char) -> bool {
    !is_ws(c) && c != ','
}

proof fn lemma_db_name_plain(t: SourceType)
    ensures
        t.db_name().len() > 0,
        forall|j: int| 0 <= j < t.db_name().len() ==> plain_char(#[trigger] t.db_name()[j]),
{
}

proof fn lemma_decode_names(ts: Seq<SourceType>)
    ensures
        decode_names(source_type_names(ts)) == Ok::<_, Seq<char>>(ts),
    decreases ts.len(),
{
    if ts.len() == 0 {
        assert(ts =~= Seq::<SourceType>::empty());
        assert(source_type_names(ts).len() == 0);
    } else {
        let names = source_type_names(ts);
        assert(names[0] == ts[0].db_name());
        assert(names.drop_first() =~= source_type_names(ts.drop_first()));
        lemma_decode_names(ts.drop_first());
        lemma_db_name_plain(ts[0]);
        assert forall|j: int| 0 <= j < ts[0].db_name().len() implies !is_ws(#[trigger] ts[0].db_name()[j]) by {
            assert(plain_char(ts[0].db_name()[j]));
        }
        lemma_trim_no_ws(ts[0].db_name());
        crate::models::lemma_db_names_round_trip(
            crate::models::EngineKind::Aria2,
            ts[0],
            crate::models::DownloadStatus::Queued,
            ts[0].db_name(),
        );
        assert(seq![ts[0]] + ts.drop_first() =~= ts);
    }
}

/// Source types read back from what was stored are the source types that
/// were stored.
pub proof fn lemma_source_types_round_trip(ts: Seq<SourceType>)
    ensures
        spec_decode_source_types(spec_encode_source_types(ts)) == Ok::<_, Seq<char>>(ts),
{
    let names = source_type_names(ts);
    let text = spec_encode_source_types(ts);
    if ts.len() == 0 {
        assert(names.len() == 0);
        assert(ts =~= Seq::<SourceType>::empty());
        assert(text =~= Seq::<char>::empty());
        assert(trim(text) =~= Seq::<char>::empty());
    } else {
        assert forall|i: int, j: int| 0 <= i < names.len() && 0 <= j < names[i].len() implies plain_char(names[i][j]) by {
            lemma_db_name_plain(ts[i]);
        }
        lemma_db_name_plain(ts[0]);
        lemma_join_chars(names, seq![','], |c: char| !is_ws(c));
        lemma_trim_no_ws(text);
        lemma_split_join(names, ',');
        lemma_decode_names(ts);
    }
}

proof fn lemma_dec_int_plain(n: int)
    ensures
        dec_int(n).len() > 0,
        forall|j: int| 0 <= j < dec_int(n).len() ==> plain_char(#[trigger] dec_int(n)[j]),
{
    if n < 0 {
        let m = (-n) as nat;
        lemma_dec_digits(m);
        assert forall|j: int| 0 <= j < dec_int(n).len() implies plain_char(#[trigger] dec_int(n)[j]) by {
            if j > 0 {
                assert(dec_int(n)[j] == dec(m)[j - 1]);
                assert(is_digit(dec(m)[j - 1]));
            }
        }
    } else {
        lemma_dec_digits(n as nat);
        assert forall|j: int| 0 <= j < dec_int(n).len() implies plain_char(#[trigger] dec_int(n)[j]) by {
            assert(is_digit(dec(n as nat)[j]));
        }
    }
}

proof fn lemma_parse_index_texts(ix: Seq<i64>)
    ensures
        parse_indexes(index_texts(ix)) == Some(ix),
    decreases ix.len(),
{
    if ix.len() == 0 {
        assert(ix =~= Seq::<i64>::empty());
    } else {
        assert(index_texts(ix)[0] == dec_int(ix[0] as int));
        assert(index_texts(ix).drop_first() =~= index_texts(ix.drop_first()));
        lemma_parse_index_texts(ix.drop_first());
        lemma_dec_int_plain(ix[0] as int);
        assert forall|j: int| 0 <= j < dec_int(ix[0] as int).len() implies !is_ws(#[trigger] dec_int(ix[0] as int)[j]) by {
            assert(plain_char(dec_int(ix[0] as int)[j]));
        }
        lemma_trim_no_ws(dec_int(ix[0] as int));
        lemma_parse_format_i64(ix[0]);
        assert(seq![ix[0]] + ix.drop_first() =~= ix);
    }
}

/// A file selection read back from what was stored is the selection that
/// was stored (an empty selection included).
pub proof fn lemma_indexes_round_trip(ix: Seq<i64>)
    ensures
        spec_decode_indexes(spec_encode_indexes(Some(ix))) == Ok::<_, ()>(Some(ix)),
{
    let texts = index_texts(ix);
    let text = join_with(texts, seq![',']);
    if ix.len() == 0 {
        assert(ix =~= Seq::<i64>::empty());
        assert(text =~= Seq::<char>::empty());
        assert(trim(text) =~= Seq::<char>::empty());
    } else {
        assert forall|i: int, j: int| 0 <= i < texts.len() && 0 <= j < texts[i].len() implies plain_char(texts[i][j]) by {
            lemma_dec_int_plain(ix[i] as int);
        }
        lemma_dec_int_plain(ix[0] as int);
        lemma_join_chars(texts, seq![','], |c: char| !is_ws(c));
        lemma_trim_no_ws(text);
        lemma_split_join(texts, ',');
        lemma_parse_index_texts(ix);
    }
}

/// Domains in canonical form (non-empty, trimmed, lowercase, without
/// commas) read back from what was stored are the domains that were
/// stored.
pub proof fn lemma_domains_round_trip(ds: Seq<Seq<char>>)
    requires
        forall|i: int| 0 <= i < ds.len() ==> (#[trigger] ds[i]).len() > 0 && trim(ds[i]) == ds[i]
            && unicode_lower(ds[i]) == ds[i] && !ds[i].contains(','),
    ensures
        spec_decode_domains(spec_encode_domains(ds)) == ds,
{
    let lowered = ds.map_values(|d: Seq<char>| unicode_lower(trim(d)));
    assert(lowered =~= ds);
    lemma_nonempty_all(ds);
    let text = join_with(ds, seq![',']);
    if ds.len() == 0 {
        assert(text =~= Seq::<char>::empty());
        assert(comma_pieces(text) =~= seq![Seq::<char>::empty()]);
        let tp = comma_pieces(text).map_values(|p: Seq<char>| trim(p));
        assert(trim(Seq::<char>::empty()) =~= Seq::<char>::empty());
        assert(tp =~= seq![Seq::<char>::empty()]);
        assert(crate::text::nonempty(tp) =~= crate::text::nonempty(tp.drop_last()));
        assert(tp.drop_last() =~= Seq::<Seq<char>>::empty());
    } else {
        assert forall|i: int, j: int| 0 <= i < ds.len() && 0 <= j < ds[i].len() implies ds[i][j] != ',' by {
            if ds[i][j] == ',' {
                assert(ds[i].contains(','));
            }
        }
        lemma_split_join(ds, ',');
        let tp = comma_pieces(text).map_values(|p: Seq<char>| trim(p));
        assert(tp =~= ds);
    }
}

proof fn lemma_nonempty_all(s: Seq<Seq<char>>)
    requires
        forall|i: int| 0 <= i < s.len() ==> (#[trigger] s[i]).len() > 0,
    ensures
        crate::text::nonempty(s) == s,
    decreases s.len(),
{
    if s.len() > 0 {
        lemma_nonempty_all(s.drop_last());
        assert(s.drop_last().push(s.last()) =~= s);
    }
}


// ---------------------------------------------------------------------
// Application settings
// ---------------------------------------------------------------------
/// The stored texts of the application settings, one for each key of the
/// settings table.
#[derive(Debug, PartialEq, Eq)]
pub struct AppSettingsRecord {
    pub theme_mode: String,
    pub web_access_enabled: String,
    pub web_access_password: String,
    pub web_access_url: String,
    pub private_download_domains: String,
    pub app_proxy_url: Option<String>,
    pub torrent_file_association_enabled: String,
    pub auto_start_enabled: String,
    pub auto_start_minimized_to_tray: String,
    pub close_to_tray_enabled: String,
    pub download_completion_notification_enabled: String,
    pub prevent_sleep_when_downloading_enabled: String,
    pub prevent_sleep_when_web_access_enabled: String,
    pub local_download_concurrency: String,
    pub auto_clean_download_tasks_enabled: String,
    pub auto_clean_download_tasks_days: String,
}

/// A switch stored as `1` or `0`.
pub open spec fn flag_text(b: bool) -> Seq<char> {
    if b {
        "1"@
    } else {
        "0"@
    }
}

fn flag_string(b: bool) -> (r: String)
    ensures
        r@ == flag_text(b),
{
    if b {
        string_of(&chars_of("1"))
    } else {
        string_of(&chars_of("0"))
    }
}

fn copy_text(s: &String) -> (r: String)
    ensures
        r@ == s@,
{
    string_of(&chars_of(s.as_str()))
}

/// The texts that settings are saved as: switches as `1` or `0`, the
/// domains encoded, the proxy trimmed, numbers in decimal.
pub fn encode_app_settings(input: &AppSettingsInput) -> (r: AppSettingsRecord)
    ensures
        stored_as(r, *input),
{
    AppSettingsRecord {
        theme_mode: copy_text(&input.theme_mode),
        web_access_enabled: flag_string(input.web_access_enabled),
        web_access_password: copy_text(&input.web_access_password),
        web_access_url: copy_text(&input.web_access_url),
        private_download_domains: encode_domains(input.private_download_domains.as_slice()),
        app_proxy_url: Some(string_of(&trim_str(input.app_proxy_url.as_str()))),
        torrent_file_association_enabled: flag_string(input.torrent_file_association_enabled),
        auto_start_enabled: flag_string(input.auto_start_enabled),
        auto_start_minimized_to_tray: flag_string(input.auto_start_minimized_to_tray),
        close_to_tray_enabled: flag_string(input.close_to_tray_enabled),
        download_completion_notification_enabled: flag_string(input.download_completion_notification_enabled),
        prevent_sleep_when_downloading_enabled: flag_string(input.prevent_sleep_when_downloading_enabled),
        prevent_sleep_when_web_access_enabled: flag_string(input.prevent_sleep_when_web_access_enabled),
        local_download_concurrency: string_of(&format_i64(input.local_download_concurrency)),
        auto_clean_download_tasks_enabled: flag_string(input.auto_clean_download_tasks_enabled),
        auto_clean_download_tasks_days: string_of(&format_i64(input.auto_clean_download_tasks_days)),
    }
}

/// A stored number that is not one.
#[derive(Debug, Clone, Copy, PartialEq, Eq, Structural)]
pub enum SettingsReadError {
    InvalidConcurrency,
    InvalidCleanupDays,
}

fn is_one(s: &String) -> (r: bool)
    ensures
        r == (s@ == "1"@),
{
    crate::text::seq_eq(&chars_of(s.as_str()), &chars_of("1"))
}

/// The settings read back from their stored texts: a switch is on exactly
/// when stored as `1`, the domains are decoded, a missing proxy is none,
/// and the numbers must parse.
pub fn decode_app_settings(record: &AppSettingsRecord) -> (r: Result<AppSettings, SettingsReadError>)
    ensures
        parse_i64_spec(record.local_download_concurrency@) is None ==> r == Err::<AppSettings, _>(
            SettingsReadError::InvalidConcurrency,
        ),
        parse_i64_spec(record.local_download_concurrency@) is Some && parse_i64_spec(
            record.auto_clean_download_tasks_days@,
        ) is None ==> r == Err::<AppSettings, _>(SettingsReadError::InvalidCleanupDays),
        r is Ok <==> (parse_i64_spec(record.local_download_concurrency@) is Some && parse_i64_spec(
            record.auto_clean_download_tasks_days@,
        ) is Some),
        r matches Ok(a) ==> {
            &&& a.theme_mode@ == record.theme_mode@
            &&& a.web_access_enabled == (record.web_access_enabled@ == "1"@)
            &&& a.web_access_password@ == record.web_access_password@
            &&& a.web_access_url@ == record.web_access_url@
            &&& strings(a.private_download_domains@) == spec_decode_domains(record.private_download_domains@)
            &&& a.app_proxy_url@ == (match record.app_proxy_url {
                Some(p) => p@,
                None => Seq::<char>::empty(),
            })
            &&& a.torrent_file_association_enabled == (record.torrent_file_association_enabled@ == "1"@)
            &&& a.auto_start_enabled == (record.auto_start_enabled@ == "1"@)
            &&& a.auto_start_minimized_to_tray == (record.auto_start_minimized_to_tray@ == "1"@)
            &&& a.close_to_tray_enabled == (record.close_to_tray_enabled@ == "1"@)
            &&& a.download_completion_notification_enabled == (record.download_completion_notification_enabled@
                == "1"@)
            &&& a.prevent_sleep_when_downloading_enabled == (record.prevent_sleep_when_downloading_enabled@
                == "1"@)
            &&& a.prevent_sleep_when_web_access_enabled == (record.prevent_sleep_when_web_access_enabled@
                == "1"@)
            &&& parse_i64_spec(record.local_download_concurrency@) == Some(a.local_download_concurrency)
            &&& a.auto_clean_download_tasks_enabled == (record.auto_clean_download_tasks_enabled@ == "1"@)
            &&& parse_i64_spec(record.auto_clean_download_tasks_days@) == Some(a.auto_clean_download_tasks_days)
        },
{
    let concurrency = match parse_i64(&chars_of(record.local_download_concurrency.as_str())) {
        Some(v) => v,
        None => return Err(SettingsReadError::InvalidConcurrency),
    };
    let days = match parse_i64(&chars_of(record.auto_clean_download_tasks_days.as_str())) {
        Some(v) => v,
        None => return Err(SettingsReadError::InvalidCleanupDays),
    };
    Ok(
        AppSettings {
            theme_mode: copy_text(&record.theme_mode),
            web_access_enabled: is_one(&record.web_access_enabled),
            web_access_password: copy_text(&record.web_access_password),
            web_access_url: copy_text(&record.web_access_url),
            private_download_domains: decode_domains(record.private_download_domains.as_str()),
            app_proxy_url: match &record.app_proxy_url {
                Some(p) => copy_text(p),
                None => string_of(&Vec::new()),
            },
            torrent_file_association_enabled: is_one(&record.torrent_file_association_enabled),
            auto_start_enabled: is_one(&record.auto_start_enabled),
            auto_start_minimized_to_tray: is_one(&record.auto_start_minimized_to_tray),
            close_to_tray_enabled: is_one(&record.close_to_tray_enabled),
            download_completion_notification_enabled: is_one(&record.download_completion_notification_enabled),
            prevent_sleep_when_downloading_enabled: is_one(&record.prevent_sleep_when_downloading_enabled),
            prevent_sleep_when_web_access_enabled: is_one(&record.prevent_sleep_when_web_access_enabled),
            local_download_concurrency: concurrency,
            auto_clean_download_tasks_enabled: is_one(&record.auto_clean_download_tasks_enabled),
            auto_clean_download_tasks_days: days,
        },
    )
}

/// The stored texts of settings, as a save writes them.
pub open spec fn stored_as(record: AppSettingsRecord, input: AppSettingsInput) -> bool {
    &&& record.theme_mode@ == input.theme_mode@
    &&& record.web_access_enabled@ == flag_text(input.web_access_enabled)
    &&& record.web_access_password@ == input.web_access_password@
    &&& record.web_access_url@ == input.web_access_url@
    &&& record.private_download_domains@ == spec_encode_domains(strings(input.private_download_domains@))
    &&& record.app_proxy_url matches Some(p) && p@ == trim(input.app_proxy_url@)
    &&& record.torrent_file_association_enabled@ == flag_text(input.torrent_file_association_enabled)
    &&& record.auto_start_enabled@ == flag_text(input.auto_start_enabled)
    &&& record.auto_start_minimized_to_tray@ == flag_text(input.auto_start_minimized_to_tray)
    &&& record.close_to_tray_enabled@ == flag_text(input.close_to_tray_enabled)
    &&& record.download_completion_notification_enabled@ == flag_text(
        input.download_completion_notification_enabled,
    )
    &&& record.prevent_sleep_when_downloading_enabled@ == flag_text(input.prevent_sleep_when_downloading_enabled)
    &&& record.prevent_sleep_when_web_access_enabled@ == flag_text(input.prevent_sleep_when_web_access_enabled)
    &&& record.local_download_concurrency@ == dec_int(input.local_download_concurrency as int)
    &&& record.auto_clean_download_tasks_enabled@ == flag_text(input.auto_clean_download_tasks_enabled)
    &&& record.auto_clean_download_tasks_days@ == dec_int(input.auto_clean_download_tasks_days as int)
}

/// Settings read back after a save are the settings saved: every switch,
/// text and number comes back, the proxy trimmed and the domains as their
/// stored form decodes.
pub proof fn lemma_app_settings_round_trip(input: AppSettingsInput, record: AppSettingsRecord)
    requires
        stored_as(record, input),
    ensures
        (record.web_access_enabled@ == "1"@) == input.web_access_enabled,
        (record.torrent_file_association_enabled@ == "1"@) == input.torrent_file_association_enabled,
        (record.auto_start_enabled@ == "1"@) == input.auto_start_enabled,
        (record.auto_start_minimized_to_tray@ == "1"@) == input.auto_start_minimized_to_tray,
        (record.close_to_tray_enabled@ == "1"@) == input.close_to_tray_enabled,
        (record.download_completion_notification_enabled@ == "1"@) == input.download_completion_notification_enabled,
        (record.prevent_sleep_when_downloading_enabled@ == "1"@) == input.prevent_sleep_when_downloading_enabled,
        (record.prevent_sleep_when_web_access_enabled@ == "1"@) == input.prevent_sleep_when_web_access_enabled,
        (record.auto_clean_download_tasks_enabled@ == "1"@) == input.auto_clean_download_tasks_enabled,
        parse_i64_spec(record.local_download_concurrency@) == Some(input.local_download_concurrency),
        parse_i64_spec(record.auto_clean_download_tasks_days@) == Some(input.auto_clean_download_tasks_days),
        record.theme_mode@ == input.theme_mode@,
        record.web_access_password@ == input.web_access_password@,
        record.web_access_url@ == input.web_access_url@,
        spec_decode_domains(record.private_download_domains@) == spec_decode_domains(
            spec_encode_domains(strings(input.private_download_domains@)),
        ),
{
    lemma_flag_text(input.web_access_enabled);
    lemma_flag_text(input.torrent_file_association_enabled);
    lemma_flag_text(input.auto_start_enabled);
    lemma_flag_text(input.auto_start_minimized_to_tray);
    lemma_flag_text(input.close_to_tray_enabled);
    lemma_flag_text(input.download_completion_notification_enabled);
    lemma_flag_text(input.prevent_sleep_when_downloading_enabled);
    lemma_flag_text(input.prevent_sleep_when_web_access_enabled);
    lemma_flag_text(input.auto_clean_download_tasks_enabled);
    lemma_parse_format_i64(input.local_download_concurrency);
    lemma_parse_format_i64(input.auto_clean_download_tasks_days);
}

/// A switch reads back as it was stored.
pub proof fn lemma_flag_text(b: bool)
    ensures
        (flag_text(b) == "1"@) == b,
{
    reveal_strlit("1");
    reveal_strlit("0");
    if !b {
        assert(flag_text(b)[0] != "1"@[0]);
    }
}

} // verus!
