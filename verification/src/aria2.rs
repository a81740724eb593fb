//! The aria2 engine's part of the logic: magnet trackers and their
//! percent encoding, download options and RPC settings, and the paths that
//! aria2 reports.
use crate::magnet::{hex_value, hexv};
use crate::text::{
    chars_of, eq_ic, eq_ignore_ascii_case, has_prefix, is_sep, lower_seq, slice_vec, split_chars,
    split_seq, starts_with, string_of, to_ascii_lowercase, trim_start, trim_start_chars,
    utf8_bytes, utf8_string, views,
};
use crate::options::OptionMap;
use crate::adapters::{copy_opt, opt_view as string_opt_view, EngineFileEntry, EngineTaskState, ProgressValue, TaskSnapshot};
use crate::models::{DownloadStatus, SourceType};
use crate::text::{parse_i64, parse_i64_spec};
use crate::text::{
    ends_with, format_i64, has_suffix, index_of, find_char, seq_eq, split_whitespace, tokens,
    trim, trim_str, nonblank_pieces, contains, contains_seq, trim_end_any, trim_end_any_chars, dec_int, join_chars, join_with, extend_vec,
};
use vstd::prelude::*;
use vstd::utf8::{decode_utf8, encode_utf8, valid_utf8};

verus! {

/// Bytes that a query value keeps as they are.
pub open spec fn unreserved(x: u8) -> bool {
    (65 <= x <= 90) || (97 <= x <= 122) || (48 <= x <= 57) || x == 45 || x == 46 || x == 95
        || x == 126
}

/// The uppercase hexadecimal digit of `d` (below 16).
pub open spec fn upper_hex(d: int) -> char {
    if d < 10 {
        ((48 + d) as u8) as char
    } else {
        ((55 + d) as u8) as char
    }
}

/// One byte of a query value, percent-encoded.
pub open spec fn encode_byte(x: u8) -> Seq<char> {
    if unreserved(x) {
        seq![x as char]
    } else {
        seq!['%', upper_hex(x as int / 16), upper_hex(x as int % 16)]
    }
}

pub open spec fn encode_bytes(b: Seq<u8>) -> Seq<char>
    decreases b.len(),
{
    if b.len() == 0 {
        Seq::empty()
    } else {
        encode_bytes(b.drop_last()) + encode_byte(b.last())
    }
}

/// A query value with every byte of its UTF-8 form outside `A-Z a-z 0-9 -._~`
/// written as `%XX`.
pub open spec fn spec_percent_encode(v: Seq<char>) -> Seq<char> {
    encode_bytes(encode_utf8(v))
}

/// Form decoding: `+` is a space and `%XX` the byte `XX`.
pub open spec fn form_decode(b: Seq<u8>) -> Option<Seq<u8>>
    decreases b.len(),
{
    if b.len() == 0 {
        Some(Seq::empty())
    } else if b[0] == 37u8 {
        if b.len() >= 3 && hexv(b[1]) is Some && hexv(b[2]) is Some {
            match form_decode(b.skip(3)) {
                Some(r) => Some(seq![(hexv(b[1])->0 * 16 + hexv(b[2])->0) as u8] + r),
                None => None,
            }
        } else {
            None
        }
    } else {
        match form_decode(b.skip(1)) {
            Some(r) => Some(seq![if b[0] == 43u8 {
                32u8
            } else {
                b[0]
            }] + r),
            None => None,
        }
    }
}

/// Why a query value does not decode.
#[derive(Debug, Clone, Copy, PartialEq, Eq, Structural)]
pub enum PercentError {
    /// A `%` without two hexadecimal digits after it.
    InvalidEncoding,
    /// The decoded bytes are not UTF-8.
    InvalidUtf8,
}

pub open spec fn spec_form_decode(v: Seq<char>) -> Result<Seq<char>, PercentError> {
    match form_decode(encode_utf8(v)) {
        None => Err(PercentError::InvalidEncoding),
        Some(bytes) => if valid_utf8(bytes) {
            Ok(decode_utf8(bytes))
        } else {
            Err(PercentError::InvalidUtf8)
        },
    }
}

fn upper_hex_char(d: u8) -> (c: char)
    requires
        d < 16,
    ensures
        c == upper_hex(d as int),
{
    if d < 10 {
        (48u8 + d) as char
    } else {
        (55u8 + d) as char
    }
}

/// Percent-encodes a query value.
pub fn percent_encode_query_value(value: &[char]) -> (r: String)
    ensures
        r@ == spec_percent_encode(value@),
{
    let bytes = utf8_bytes(value);
    let mut out: Vec<char> = Vec::new();
    let mut i: usize = 0;
    while i < bytes.len()
        invariant
            i <= bytes@.len(),
            out@ == encode_bytes(bytes@.take(i as int)),
        decreases bytes.len() - i,
    {
        let x = bytes[i];
        let ghost before = out@;
        if (65u8 <= x && x <= 90u8) || (97u8 <= x && x <= 122u8) || (48u8 <= x && x <= 57u8) || x
            == 45u8 || x == 46u8 || x == 95u8 || x == 126u8 {
            out.push(x as char);
        } else {
            out.push('%');
            out.push(upper_hex_char(x / 16));
            out.push(upper_hex_char(x % 16));
        }
        proof {
            let t = bytes@.take(i + 1);
            assert(t.drop_last() =~= bytes@.take(i as int));
            assert(out@ =~= before + encode_byte(x));
        }
        i = i + 1;
    }
    proof {
        assert(bytes@.take(i as int) =~= bytes@);
    }
    string_of(&out)
}

/// The byte spelled by two hexadecimal digits.
pub fn hex_pair(high: u8, low: u8) -> (r: Option<u8>)
    ensures
        match r {
            Some(v) => hexv(high) is Some && hexv(low) is Some && v == hexv(high)->0 * 16 + hexv(
                low,
            )->0,
            None => hexv(high) is None || hexv(low) is None,
        },
{
    let h = match hex_value(high) {
        Some(h) => h,
        None => return None,
    };
    let l = match hex_value(low) {
        Some(l) => l,
        None => return None,
    };
    Some(h * 16 + l)
}

/// Decodes a form-encoded query value.
pub fn percent_decode_query_value(value: &[char]) -> (r: Result<String, PercentError>)
    ensures
        match r {
            Ok(s) => spec_form_decode(value@) == Ok::<_, PercentError>(s@),
            Err(e) => spec_form_decode(value@) == Err::<Seq<char>, _>(e),
        },
{
    let input = utf8_bytes(value);
    let ghost b = input@;
    let mut bytes: Vec<u8> = Vec::new();
    let mut index: usize = 0;
    proof {
        assert(b.skip(0) =~= b);
        assert(bytes@ + Seq::<u8>::empty() =~= bytes@);
    }
    while index < input.len()
        invariant
            b == input@,
            b == encode_utf8(value@),
            index <= input@.len(),
            form_decode(b) == (match form_decode(b.skip(index as int)) {
                Some(r) => Some(bytes@ + r),
                None => None,
            }),
        decreases input.len() - index,
    {
        let ghost rest = b.skip(index as int);
        let byte = input[index];
        if byte == 37u8 {
            if input.len() - index < 3 {
                proof {
                    assert(rest[0] == 37u8);
                }
                return Err(PercentError::InvalidEncoding);
            }
            let v = match hex_pair(input[index + 1], input[index + 2]) {
                Some(v) => v,
                None => {
                    proof {
                        assert(rest[0] == 37u8 && rest[1] == input@[index + 1] && rest[2]
                            == input@[index + 2]);
                    }
                    return Err(PercentError::InvalidEncoding);
                },
            };
            proof {
                assert(rest.skip(3) =~= b.skip(index + 3));
                assert(rest[1] == input@[index + 1]);
                assert(rest[2] == input@[index + 2]);
                match form_decode(b.skip(index + 3)) {
                    Some(r) => {
                        assert(bytes@.push(v) + r =~= bytes@ + (seq![v] + r));
                    },
                    None => {},
                }
            }
            bytes.push(v);
            index = index + 3;
        } else {
            let v = if byte == 43u8 {
                32u8
            } else {
                byte
            };
            proof {
                assert(rest.skip(1) =~= b.skip(index + 1));
                match form_decode(b.skip(index + 1)) {
                    Some(r) => {
                        assert(bytes@.push(v) + r =~= bytes@ + (seq![v] + r));
                    },
                    None => {},
                }
            }
            bytes.push(v);
            index = index + 1;
        }
    }
    proof {
        assert(b.skip(index as int).len() == 0);
        assert(bytes@ + Seq::<u8>::empty() =~= bytes@);
    }
    match utf8_string(bytes) {
        Some(s) => Ok(s),
        None => Err(PercentError::InvalidUtf8),
    }
}

/// The characters as bytes (for ASCII text, its UTF-8 form).
pub open spec fn ascii_bytes(s: Seq<char>) -> Seq<u8> {
    s.map_values(|c: char| c as u8)
}

proof fn lemma_encode_bytes_concat(a: Seq<u8>, b: Seq<u8>)
    ensures
        encode_bytes(a + b) == encode_bytes(a) + encode_bytes(b),
    decreases b.len(),
{
    if b.len() == 0 {
        assert(a + b =~= a);
        assert(encode_bytes(a) + encode_bytes(b) =~= encode_bytes(a));
    } else {
        assert((a + b).drop_last() =~= a + b.drop_last());
        lemma_encode_bytes_concat(a, b.drop_last());
        assert(encode_bytes(a + b) =~= encode_bytes(a) + encode_bytes(b));
    }
}

proof fn lemma_encode_bytes_ascii(b: Seq<u8>)
    ensures
        vstd::utf8::is_ascii_chars(encode_bytes(b)),
        forall|i: int| 0 <= i < encode_bytes(b).len() ==> #[trigger] encode_bytes(b)[i] != '&',
    decreases b.len(),
{
    if b.len() > 0 {
        lemma_encode_bytes_ascii(b.drop_last());
        let x = b.last();
        let e = encode_byte(x);
        let pre = encode_bytes(b.drop_last());
        assert(encode_bytes(b) == pre + e);
        assert forall|i: int| 0 <= i < encode_bytes(b).len() implies '\0' <= #[trigger] encode_bytes(b)[i] <= '\u{7f}' && encode_bytes(b)[i] != '&' by {
            if i >= pre.len() {
                let k = i - pre.len();
                if unreserved(x) {
                    assert(e[k] == x as char);
                } else if k == 0 {
                    assert(e[k] == '%');
                } else if k == 1 {
                    assert(e[k] == upper_hex(x as int / 16));
                } else {
                    assert(e[k] == upper_hex(x as int % 16));
                }
            } else {
                assert(encode_bytes(b)[i] == pre[i]);
            }
        }
    }
}

proof fn lemma_decode_encoded(b: Seq<u8>)
    ensures
        form_decode(ascii_bytes(encode_bytes(b))) == Some(b),
    decreases b.len(),
{
    if b.len() == 0 {
        assert(ascii_bytes(encode_bytes(b)) =~= Seq::<u8>::empty());
    } else {
        let x = b[0];
        let tail = b.drop_first();
        assert(b =~= seq![x] + tail);
        lemma_encode_bytes_concat(seq![x], tail);
        assert(seq![x].drop_last() =~= Seq::<u8>::empty());
        assert(seq![x].last() == x);
        assert(encode_bytes(Seq::<u8>::empty()) =~= Seq::<char>::empty());
        assert(encode_bytes(seq![x]) == encode_bytes(seq![x].drop_last()) + encode_byte(x));
        assert(encode_bytes(seq![x]) =~= encode_byte(x));
        let e = encode_byte(x);
        let rest = ascii_bytes(encode_bytes(tail));
        let all = ascii_bytes(encode_bytes(b));
        assert(all =~= ascii_bytes(e) + rest);
        lemma_decode_encoded(tail);
        if unreserved(x) {
            assert(all[0] == x);
            assert(all.skip(1) =~= rest);
        } else {
            let h = (x as int / 16) as u8;
            let l = (x as int % 16) as u8;
            assert(all[0] == 37u8);
            assert(all[1] == upper_hex(h as int) as u8);
            assert(all[2] == upper_hex(l as int) as u8);
            assert(hexv(all[1]) == Some(h));
            assert(hexv(all[2]) == Some(l));
            assert(all.skip(3) =~= rest);
            assert((h * 16 + l) as u8 == x);
        }
        assert(seq![x] + tail =~= b);
    }
}

/// Percent-encoding a query value and decoding it gives the value back.
pub proof fn lemma_percent_round_trip(v: Seq<char>)
    ensures
        spec_form_decode(spec_percent_encode(v)) == Ok::<_, PercentError>(v),
{
    let bytes = encode_utf8(v);
    let e = encode_bytes(bytes);
    lemma_encode_bytes_ascii(bytes);
    vstd::utf8::is_ascii_chars_encode_utf8(e);
    assert(encode_utf8(e) =~= ascii_bytes(e));
    lemma_decode_encoded(bytes);
    vstd::utf8::encode_utf8_valid_utf8(v);
    vstd::utf8::encode_utf8_decode_utf8(v);
}

pub open spec fn tr_prefix() -> Seq<char> {
    seq!['t', 'r', '=']
}

/// The pieces of a magnet link between its `&` separators.
pub open spec fn magnet_parts(source: Seq<char>) -> Seq<Seq<char>> {
    split_seq(source, false, seq!['&'])
}

/// A `tr=` part whose decoded value is `tracker`, ignoring ASCII case.
pub open spec fn names_tracker(part: Seq<char>, tracker: Seq<char>) -> bool {
    starts_with(part, tr_prefix()) && (spec_form_decode(part.skip(3)) matches Ok(v) && eq_ic(
        v,
        tracker,
    ))
}

/// The magnet link already lists the tracker.
pub open spec fn has_tracker(source: Seq<char>, tracker: Seq<char>) -> bool {
    exists|i: int|
        0 <= i < magnet_parts(source).len() && names_tracker(
            #[trigger] magnet_parts(source)[i],
            tracker,
        )
}

/// Whether the magnet link lists the tracker.
pub fn magnet_has_tracker(source: &[char], tracker: &[char]) -> (r: bool)
    ensures
        r == has_tracker(source@, tracker@),
{
    let amp: Vec<char> = vec!['&'];
    let parts = split_chars(source, false, &amp);
    let prefix: Vec<char> = vec!['t', 'r', '='];
    proof {
        assert(amp@ =~= seq!['&']);
        assert(prefix@ =~= tr_prefix());
    }
    let ghost ps = views(parts@);
    let mut i: usize = 0;
    while i < parts.len()
        invariant
            i <= parts@.len(),
            ps == views(parts@),
            ps == magnet_parts(source@),
            prefix@ == tr_prefix(),
            forall|j: int| 0 <= j < i ==> !names_tracker(#[trigger] ps[j], tracker@),
        decreases parts.len() - i,
    {
        let part = &parts[i];
        proof {
            assert(ps[i as int] == part@);
        }
        if has_prefix(part, &prefix) {
            let n = part.len();
            let value = slice_vec(part, 3, n);
            proof {
                assert(value@ =~= part@.skip(3));
            }
            match percent_decode_query_value(&value) {
                Ok(text) => {
                    let t = chars_of(text.as_str());
                    if eq_ignore_ascii_case(&t, tracker) {
                        return true;
                    }
                },
                Err(_) => {},
            }
        }
        i = i + 1;
    }
    false
}

/// One tracker added to a magnet link unless the link already lists it.
pub open spec fn add_tracker(value: Seq<char>, tracker: Seq<char>) -> Seq<char> {
    if has_tracker(value, tracker) {
        value
    } else {
        value + seq!['&'] + tr_prefix() + spec_percent_encode(tracker)
    }
}

/// The trackers added one after another.
pub open spec fn add_trackers(value: Seq<char>, trackers: Seq<Seq<char>>) -> Seq<char>
    decreases trackers.len(),
{
    if trackers.len() == 0 {
        value
    } else {
        add_trackers(add_tracker(value, trackers[0]), trackers.drop_first())
    }
}

/// The trackers that every magnet download can fall back on.
pub open spec fn fallback_trackers() -> Seq<Seq<char>> {
    seq![
        "udp://tracker.opentrackr.org:1337/announce"@,
        "udp://open.stealth.si:80/announce"@,
        "udp://tracker.torrent.eu.org:451/announce"@,
        "udp://tracker.openbittorrent.com:6969/announce"@,
        "udp://exodus.desync.com:6969/announce"@,
    ]
}

/// The trackers that every magnet download can fall back on.
pub fn magnet_fallback_trackers() -> (r: Vec<String>)
    ensures
        r@.map_values(|s: String| s@) == fallback_trackers(),
{
    let mut r: Vec<String> = Vec::new();
    r.push("udp://tracker.opentrackr.org:1337/announce".to_owned());
    r.push("udp://open.stealth.si:80/announce".to_owned());
    r.push("udp://tracker.torrent.eu.org:451/announce".to_owned());
    r.push("udp://tracker.openbittorrent.com:6969/announce".to_owned());
    r.push("udp://exodus.desync.com:6969/announce".to_owned());
    proof {
        assert(r@.map_values(|s: String| s@) =~= fallback_trackers());
    }
    r
}

pub open spec fn magnet_scheme() -> Seq<char> {
    seq!['m', 'a', 'g', 'n', 'e', 't', ':']
}

/// A source is a magnet link when, past leading whitespace, it starts with
/// `magnet:` in any case.
pub open spec fn is_magnet(source: Seq<char>) -> bool {
    starts_with(lower_seq(trim_start(source)), magnet_scheme())
}

/// A magnet link with the configured trackers, then the fallback trackers,
/// added where missing; any other source unchanged.
pub open spec fn spec_magnet_with_fallback(trackers: Seq<Seq<char>>, source: Seq<char>) -> Seq<char> {
    if is_magnet(source) {
        add_trackers(source, trackers + fallback_trackers())
    } else {
        source
    }
}

/// Adds one tracker to a magnet link unless the link lists it already.
fn append_tracker(value: &mut Vec<char>, tracker: &[char])
    ensures
        final(value)@ == add_tracker(old(value)@, tracker@),
{
    if !magnet_has_tracker(value, tracker) {
        let encoded = percent_encode_query_value(tracker);
        value.push('&');
        value.push('t');
        value.push('r');
        value.push('=');
        let enc = chars_of(encoded.as_str());
        crate::text::extend_vec(value, &enc);
        proof {
            assert(value@ =~= old(value)@ + seq!['&'] + tr_prefix() + spec_percent_encode(
                tracker@,
            ));
        }
    }
}

/// Adds the configured trackers, then the fallback trackers, to a magnet
/// link that does not list them yet.
pub fn magnet_with_fallback_trackers(trackers: &[String], source: &str) -> (r: String)
    ensures
        r@ == spec_magnet_with_fallback(trackers@.map_values(|s: String| s@), source@),
{
    let src = chars_of(source);
    let start = trim_start_chars(&src);
    let lower = to_ascii_lowercase(&start);
    let scheme: Vec<char> = vec!['m', 'a', 'g', 'n', 'e', 't', ':'];
    proof {
        assert(scheme@ =~= magnet_scheme());
    }
    if !has_prefix(&lower, &scheme) {
        return source.to_owned();
    }
    let fallback = magnet_fallback_trackers();
    let ghost ts = trackers@.map_values(|s: String| s@) + fallback_trackers();
    let ghost n = trackers@.len() as int;
    proof {
        assert(ts.skip(0) =~= ts);
    }
    let mut value = src;
    let mut i: usize = 0;
    while i < trackers.len()
        invariant
            i <= trackers@.len(),
            n == trackers@.len(),
            ts == trackers@.map_values(|s: String| s@) + fallback_trackers(),
            add_trackers(source@, ts) == add_trackers(value@, ts.skip(i as int)),
        decreases trackers.len() - i,
    {
        let tracker = chars_of(trackers[i].as_str());
        proof {
            assert(ts.skip(i as int)[0] == tracker@);
            assert(ts.skip(i as int).drop_first() =~= ts.skip(i + 1));
        }
        append_tracker(&mut value, &tracker);
        i = i + 1;
    }
    let mut k: usize = 0;
    while k < fallback.len()
        invariant
            k <= fallback@.len(),
            n == trackers@.len(),
            fallback@.map_values(|s: String| s@) == fallback_trackers(),
            ts == trackers@.map_values(|s: String| s@) + fallback_trackers(),
            add_trackers(source@, ts) == add_trackers(value@, ts.skip(n + k)),
        decreases fallback.len() - k,
    {
        let tracker = chars_of(fallback[k].as_str());
        proof {
            assert(fallback@.map_values(|s: String| s@)[k as int] == fallback@[k as int]@);
            assert(ts.skip(n + k)[0] == tracker@);
            assert(ts.skip(n + k).drop_first() =~= ts.skip(n + k + 1));
        }
        append_tracker(&mut value, &tracker);
        k = k + 1;
    }
    proof {
        assert(ts.skip(n + k).len() == 0);
    }
    string_of(&value)
}

proof fn lemma_add_tracker_keeps(v: Seq<char>, t: Seq<char>, u: Seq<char>)
    requires
        has_tracker(v, u),
    ensures
        has_tracker(add_tracker(v, t), u),
        starts_with(add_tracker(v, t), v),
{
    if !has_tracker(v, t) {
        let w = tr_prefix() + spec_percent_encode(t);
        lemma_encode_bytes_ascii(encode_utf8(t));
        assert(v + seq!['&'] + tr_prefix() + spec_percent_encode(t) =~= v + seq!['&'] + w);
        assert(seq!['&'][0] == '&');
        assert(is_sep('&', false, seq!['&']));
        crate::text::lemma_split_concat(v, '&', w, false, seq!['&']);
        let i = choose|i: int|
            0 <= i < magnet_parts(v).len() && names_tracker(#[trigger] magnet_parts(v)[i], u);
        let nv = add_tracker(v, t);
        assert(magnet_parts(nv)[i] == magnet_parts(v)[i]);
        assert(nv.take(v.len() as int) =~= v);
    } else {
        assert(v.take(v.len() as int) =~= v);
    }
}

proof fn lemma_add_tracker_adds(v: Seq<char>, t: Seq<char>)
    ensures
        has_tracker(add_tracker(v, t), t),
{
    if !has_tracker(v, t) {
        let e = spec_percent_encode(t);
        let w = tr_prefix() + e;
        lemma_encode_bytes_ascii(encode_utf8(t));
        assert forall|i: int| 0 <= i < w.len() implies !is_sep(#[trigger] w[i], false, seq!['&']) by {
            if i >= 3 {
                assert(w[i] == e[i - 3]);
            }
            assert(seq!['&'].contains(w[i]) ==> w[i] == '&');
        }
        crate::text::lemma_split_single(w, false, seq!['&']);
        assert(v + seq!['&'] + tr_prefix() + e =~= v + seq!['&'] + w);
        assert(seq!['&'][0] == '&');
        assert(is_sep('&', false, seq!['&']));
        crate::text::lemma_split_concat(v, '&', w, false, seq!['&']);
        let nv = add_tracker(v, t);
        crate::text::lemma_split_nonempty(v, false, seq!['&']);
        let k = magnet_parts(v).len() as int;
        assert(magnet_parts(nv)[k] == w);
        assert(w.take(3) =~= tr_prefix());
        assert(w.skip(3) =~= e);
        lemma_percent_round_trip(t);
        assert(names_tracker(magnet_parts(nv)[k], t));
    }
}

proof fn lemma_add_trackers(v: Seq<char>, ts: Seq<Seq<char>>)
    ensures
        forall|j: int| 0 <= j < ts.len() ==> has_tracker(add_trackers(v, ts), #[trigger] ts[j]),
        forall|u: Seq<char>| has_tracker(v, u) ==> has_tracker(add_trackers(v, ts), u),
        starts_with(add_trackers(v, ts), v),
    decreases ts.len(),
{
    if ts.len() == 0 {
        assert(v.take(v.len() as int) =~= v);
    } else {
        let v1 = add_tracker(v, ts[0]);
        lemma_add_trackers(v1, ts.drop_first());
        lemma_add_tracker_adds(v, ts[0]);
        assert forall|u: Seq<char>| has_tracker(v, u) implies has_tracker(add_trackers(v, ts), u) by {
            lemma_add_tracker_keeps(v, ts[0], u);
        }
        assert forall|j: int| 0 <= j < ts.len() implies has_tracker(add_trackers(v, ts), #[trigger] ts[j]) by {
            if j > 0 {
                assert(ts[j] == ts.drop_first()[j - 1]);
            }
        }
        let r = add_trackers(v, ts);
        if has_tracker(v, ts[0]) {
            assert(v1 == v);
        } else {
            assert(v1.take(v.len() as int) =~= v);
        }
        assert(r.take(v1.len() as int) == v1);
        assert(r.take(v.len() as int) =~= v1.take(v.len() as int));
    }
}

/// Once the fallback trackers are added to a magnet link, it lists every
/// configured tracker and every fallback tracker, and it still starts with
/// the link as it was.
pub proof fn lemma_fallback_trackers_present(trackers: Seq<Seq<char>>, source: Seq<char>)
    requires
        is_magnet(source),
    ensures
        forall|t: Seq<char>|
            (trackers.contains(t) || fallback_trackers().contains(t)) ==> has_tracker(
                #[trigger] spec_magnet_with_fallback(trackers, source),
                t,
            ),
        starts_with(spec_magnet_with_fallback(trackers, source), source),
{
    let ts = trackers + fallback_trackers();
    lemma_add_trackers(source, ts);
    assert forall|t: Seq<char>| (trackers.contains(t) || fallback_trackers().contains(t)) implies has_tracker(
        #[trigger] spec_magnet_with_fallback(trackers, source),
        t,
    ) by {
        if trackers.contains(t) {
            let j = choose|j: int| 0 <= j < trackers.len() && trackers[j] == t;
            assert(ts[j] == t);
        } else {
            let j = choose|j: int| 0 <= j < fallback_trackers().len() && fallback_trackers()[j] == t;
            assert(ts[trackers.len() + j] == t);
        }
    }
}

pub open spec fn default_rpc_url() -> Seq<char> {
    "http://127.0.0.1:6800/jsonrpc"@
}

pub open spec fn jsonrpc_suffix() -> Seq<char> {
    "/jsonrpc"@
}

/// The JSON-RPC endpoint of aria2: the configured URL (by default the local
/// one), trimmed, ending in `/jsonrpc`.
pub open spec fn spec_aria2_rpc_url(connection_url: Option<Seq<char>>) -> Seq<char> {
    let url = trim(
        match connection_url {
            Some(u) => u,
            None => default_rpc_url(),
        },
    );
    if ends_with(url, jsonrpc_suffix()) {
        url
    } else {
        trim_end_any(url, seq!['/']) + jsonrpc_suffix()
    }
}

pub fn aria2_rpc_url(connection_url: Option<&str>) -> (r: String)
    ensures
        r@ == spec_aria2_rpc_url(
            match connection_url {
                Some(u) => Some(u@),
                None => None,
            },
        ),
{
    let url = match connection_url {
        Some(u) => trim_str(u),
        None => trim_str("http://127.0.0.1:6800/jsonrpc"),
    };
    let suffix = chars_of("/jsonrpc");
    if has_suffix(&url, &suffix) {
        string_of(&url)
    } else {
        let slash: Vec<char> = vec!['/'];
        let mut base = trim_end_any_chars(&url, &slash);
        proof {
            assert(slash@ =~= seq!['/']);
        }
        extend_vec(&mut base, &suffix);
        string_of(&base)
    }
}

pub open spec fn secret_prefix() -> Seq<char> {
    "--rpc-secret="@
}

pub open spec fn secret_flag() -> Seq<char> {
    "--rpc-secret"@
}

/// The RPC secret given from the `i`-th argument on: `--rpc-secret=<s>`, or
/// `--rpc-secret` followed by `<s>`.
pub open spec fn secret_from(args: Seq<Seq<char>>, i: int) -> Option<Seq<char>>
    decreases args.len() - i,
{
    if i < 0 || i >= args.len() {
        None
    } else if starts_with(args[i], secret_prefix()) {
        Some(args[i].skip(secret_prefix().len() as int))
    } else if args[i] == secret_flag() {
        if i + 1 < args.len() {
            Some(args[i + 1])
        } else {
            None
        }
    } else {
        secret_from(args, i + 1)
    }
}

/// The RPC secret set by aria2's command-line arguments.
pub fn aria2_rpc_secret(args: &str) -> (r: Option<String>)
    ensures
        match r {
            Some(s) => secret_from(tokens(args@), 0) == Some(s@),
            None => secret_from(tokens(args@), 0) is None,
        },
{
    let text = chars_of(args);
    let parts = split_whitespace(&text);
    let prefix = chars_of("--rpc-secret=");
    let flag = chars_of("--rpc-secret");
    let ghost ts = views(parts@);
    let mut i: usize = 0;
    while i < parts.len()
        invariant
            i <= parts@.len(),
            ts == views(parts@),
            ts == tokens(args@),
            prefix@ == secret_prefix(),
            flag@ == secret_flag(),
            secret_from(ts, 0) == secret_from(ts, i as int),
        decreases parts.len() - i,
    {
        let part = &parts[i];
        proof {
            assert(ts[i as int] == part@);
        }
        if has_prefix(part, &prefix) {
            let n = part.len();
            return Some(string_of(&slice_vec(part, prefix.len(), n)));
        }
        if seq_eq(part, &flag) {
            if i + 1 < parts.len() {
                proof {
                    assert(ts[i + 1] == parts@[i + 1]@);
                }
                return Some(string_of(&parts[i + 1]));
            }
            return None;
        }
        i = i + 1;
    }
    None
}

/// The parameters of an aria2 RPC call: `token:<secret>` first where the
/// arguments set an RPC secret, then the given parameters.
pub fn aria2_params(default_args: &str, params: Vec<String>) -> (r: Vec<String>)
    ensures
        match secret_from(tokens(default_args@), 0) {
            Some(s) => r@.len() == params@.len() + 1 && r@[0]@ == "token:"@ + s && forall|i: int|
                0 <= i < params@.len() ==> #[trigger] r@[i + 1] == params@[i],
            None => r@ == params@,
        },
{
    match aria2_rpc_secret(default_args) {
        Some(secret) => {
            let mut token = chars_of("token:");
            let s = chars_of(secret.as_str());
            extend_vec(&mut token, &s);
            let mut r: Vec<String> = Vec::new();
            r.push(string_of(&token));
            let mut i: usize = 0;
            while i < params.len()
                invariant
                    i <= params@.len(),
                    r@.len() == i + 1,
                    r@[0]@ == token@,
                    forall|j: int| 0 <= j < i ==> #[trigger] r@[j + 1] == params@[j],
                decreases params.len() - i,
            {
                r.push(params[i].clone());
                i = i + 1;
            }
            r
        },
        None => params,
    }
}

/// Options that the application sets itself and arguments may not change.
pub open spec fn option_reserved(key: Seq<char>) -> bool {
    key == "dir"@ || key == "enable-rpc"@ || key == "listen-port"@ || key == "rpc-listen-all"@
        || key == "rpc-listen-port"@ || key == "rpc-secret"@
}

pub fn aria2_download_option_allowed(key: &[char]) -> (r: bool)
    ensures
        r == !option_reserved(key@),
{
    let a = chars_of("dir");
    let b = chars_of("enable-rpc");
    let c = chars_of("listen-port");
    let d = chars_of("rpc-listen-all");
    let e = chars_of("rpc-listen-port");
    let f = chars_of("rpc-secret");
    !(seq_eq(key, &a) || seq_eq(key, &b) || seq_eq(key, &c) || seq_eq(key, &d) || seq_eq(key, &e)
        || seq_eq(key, &f))
}

pub open spec fn dash2() -> Seq<char> {
    seq!['-', '-']
}

/// The options that the arguments from the `i`-th on set: `--key=value`, or
/// `--key value` when the value does not itself start with `--`; reserved
/// keys are skipped.
pub open spec fn options_from(m: Map<Seq<char>, Seq<char>>, args: Seq<Seq<char>>, i: int) -> Map<
    Seq<char>,
    Seq<char>,
>
    decreases args.len() - i,
{
    if i < 0 || i >= args.len() {
        m
    } else if !starts_with(args[i], dash2()) {
        options_from(m, args, i + 1)
    } else {
        let option = args[i].skip(2);
        match index_of(option, '=') {
            Some(e) => {
                let key = option.take(e);
                options_from(
                    if option_reserved(key) {
                        m
                    } else {
                        m.insert(key, option.skip(e + 1))
                    },
                    args,
                    i + 1,
                )
            },
            None => if i + 1 < args.len() && !starts_with(args[i + 1], dash2()) {
                options_from(
                    if option_reserved(option) {
                        m
                    } else {
                        m.insert(option, args[i + 1])
                    },
                    args,
                    i + 2,
                )
            } else {
                options_from(m, args, i + 1)
            },
        }
    }
}

/// The options set by a command line of aria2 arguments.
pub open spec fn spec_append_options(m: Map<Seq<char>, Seq<char>>, args: Seq<char>) -> Map<
    Seq<char>,
    Seq<char>,
> {
    options_from(m, tokens(args), 0)
}

/// Adds the download options that the arguments set.
pub fn append_aria2_options(options: &mut OptionMap, args: &str)
    requires
        old(options).wf(),
    ensures
        final(options).wf(),
        final(options)@ == spec_append_options(old(options)@, args@),
{
    let text = chars_of(args);
    let parts = split_whitespace(&text);
    let dashes: Vec<char> = vec!['-', '-'];
    proof {
        assert(dashes@ =~= dash2());
    }
    let ghost ts = views(parts@);
    let mut index: usize = 0;
    while index < parts.len()
        invariant
            index <= parts@.len(),
            ts == views(parts@),
            ts == tokens(args@),
            dashes@ == dash2(),
            options.wf(),
            spec_append_options(old(options)@, args@) == options_from(options@, ts, index as int),
        decreases parts.len() - index,
    {
        let part = &parts[index];
        proof {
            assert(ts[index as int] == part@);
        }
        if !has_prefix(part, &dashes) {
            index = index + 1;
        } else {
            let n = part.len();
            let option = slice_vec(part, 2, n);
            proof {
                assert(option@ =~= part@.skip(2));
            }
            match find_char(&option, '=') {
                Some(e) => {
                    let key = slice_vec(&option, 0, e);
                    let m = option.len();
                    let value = slice_vec(&option, e + 1, m);
                    proof {
                        assert(key@ =~= option@.take(e as int));
                        assert(value@ =~= option@.skip(e + 1));
                    }
                    if aria2_download_option_allowed(&key) {
                        options.insert(key, value);
                    }
                    index = index + 1;
                },
                None => {
                    if index + 1 < parts.len() && !has_prefix(&parts[index + 1], &dashes) {
                        proof {
                            assert(ts[index + 1] == parts@[index + 1]@);
                        }
                        if aria2_download_option_allowed(&option) {
                            let value = slice_vec(&parts[index + 1], 0, parts[index + 1].len());
                            proof {
                                assert(value@ =~= parts@[index + 1]@);
                            }
                            options.insert(option, value);
                        }
                        index = index + 2;
                    } else {
                        index = index + 1;
                    }
                },
            }
        }
    }
    proof {
        assert(options_from(options@, ts, index as int) == options@);
    }
}

pub open spec fn bool_text(value: bool) -> Seq<char> {
    if value {
        "true"@
    } else {
        "false"@
    }
}

/// `"true"` or `"false"`.
pub fn bool_param(value: bool) -> (r: &'static str)
    ensures
        r@ == bool_text(value),
{
    if value {
        "true"
    } else {
        "false"
    }
}

/// The file indexes, comma-separated.
pub open spec fn spec_select_file_indexes(indexes: Seq<i64>) -> Seq<char> {
    join_with(indexes.map_values(|i: i64| dec_int(i as int)), seq![','])
}

pub fn format_select_file_indexes(indexes: &[i64]) -> (r: String)
    ensures
        r@ == spec_select_file_indexes(indexes@),
{
    let mut parts: Vec<Vec<char>> = Vec::new();
    let mut i: usize = 0;
    while i < indexes.len()
        invariant
            i <= indexes@.len(),
            views(parts@) == indexes@.take(i as int).map_values(|x: i64| dec_int(x as int)),
        decreases indexes.len() - i,
    {
        let ghost before = parts@;
        let text = format_i64(indexes[i]);
        parts.push(text);
        proof {
            assert(parts@ == before.push(text));
            assert(indexes@.take(i + 1) =~= indexes@.take(i as int).push(indexes@[i as int]));
            assert(views(parts@) =~= views(before).push(text@));
            assert(views(parts@) =~= indexes@.take(i + 1).map_values(|x: i64| dec_int(x as int)));
        }
        i = i + 1;
    }
    let comma: Vec<char> = vec![','];
    proof {
        assert(indexes@.take(i as int) =~= indexes@);
        assert(comma@ =~= seq![',']);
    }
    string_of(&join_chars(&parts, &comma))
}

/// The text of an optional argument, trimmed, when any is left.
pub open spec fn nonblank(v: Option<Seq<char>>) -> Option<Seq<char>> {
    match v {
        Some(t) => if trim(t).len() > 0 {
            Some(trim(t))
        } else {
            None
        },
        None => None,
    }
}

pub open spec fn opt_view(v: Option<&str>) -> Option<Seq<char>> {
    match v {
        Some(s) => Some(s@),
        None => None,
    }
}

/// The options of an aria2 download: the directory, the options that the
/// base, default and task arguments set, the configured transfer and
/// BitTorrent options, then the proxy, user agent, speed limit, output name
/// and file selection where given.
pub open spec fn spec_download_options(
    save_path: Seq<char>,
    output_file_name: Option<Seq<char>>,
    default_args: Seq<char>,
    task_args: Seq<char>,
    selected_file_indexes: Option<Seq<i64>>,
    proxy_url: Option<Seq<char>>,
    user_agent: Option<Seq<char>>,
    speed_limit_bytes_per_sec: Option<i64>,
    bt_max_peers: i64,
    max_connection_per_server: i64,
    split: i64,
    min_split_size: Seq<char>,
    file_allocation: Seq<char>,
    seed_time: i64,
    seed_ratio: Seq<char>,
    enable_dht: bool,
    enable_dht6: bool,
    enable_peer_exchange: bool,
    enable_lpd: bool,
) -> Map<Seq<char>, Seq<char>> {
    let m0 = Map::<Seq<char>, Seq<char>>::empty().insert("dir"@, save_path);
    let m1 = spec_append_options(m0, "--continue=true"@);
    let m2 = spec_append_options(m1, default_args);
    let m3 = spec_append_options(m2, task_args);
    let m4 = m3.insert("bt-max-peers"@, dec_int(bt_max_peers as int)).insert(
        "max-connection-per-server"@,
        dec_int(max_connection_per_server as int),
    ).insert("split"@, dec_int(split as int)).insert("min-split-size"@, min_split_size).insert(
        "file-allocation"@,
        file_allocation,
    ).insert("seed-time"@, dec_int(seed_time as int)).insert("seed-ratio"@, seed_ratio).insert(
        "enable-dht"@,
        bool_text(enable_dht),
    ).insert("enable-dht6"@, bool_text(enable_dht6)).insert(
        "enable-peer-exchange"@,
        bool_text(enable_peer_exchange),
    ).insert("bt-enable-lpd"@, bool_text(enable_lpd));
    let m5 = match nonblank(proxy_url) {
        Some(p) => m4.insert("all-proxy"@, p),
        None => m4,
    };
    let m6 = match nonblank(user_agent) {
        Some(u) => m5.insert("user-agent"@, u),
        None => m5,
    };
    let m7 = match speed_limit_bytes_per_sec {
        Some(l) => if l > 0 {
            m6.insert("max-download-limit"@, dec_int(l as int))
        } else {
            m6
        },
        None => m6,
    };
    let m8 = match output_file_name {
        Some(o) => if o.len() > 0 {
            m7.insert("out"@, o)
        } else {
            m7
        },
        None => m7,
    };
    match selected_file_indexes {
        Some(ix) => if ix.len() > 0 {
            m8.insert("select-file"@, spec_select_file_indexes(ix))
        } else {
            m8
        },
        None => m8,
    }
}

proof fn lemma_options_keep_reserved(m: Map<Seq<char>, Seq<char>>, args: Seq<Seq<char>>, i: int, k: Seq<char>)
    requires
        option_reserved(k),
    ensures
        options_from(m, args, i).contains_key(k) == m.contains_key(k),
        m.contains_key(k) ==> options_from(m, args, i)[k] == m[k],
    decreases args.len() - i,
{
    if i < 0 || i >= args.len() {
    } else if !starts_with(args[i], dash2()) {
        lemma_options_keep_reserved(m, args, i + 1, k);
    } else {
        let option = args[i].skip(2);
        match index_of(option, '=') {
            Some(e) => {
                let key = option.take(e);
                let next = if option_reserved(key) {
                    m
                } else {
                    m.insert(key, option.skip(e + 1))
                };
                lemma_options_keep_reserved(next, args, i + 1, k);
            },
            None => if i + 1 < args.len() && !starts_with(args[i + 1], dash2()) {
                let next = if option_reserved(option) {
                    m
                } else {
                    m.insert(option, args[i + 1])
                };
                lemma_options_keep_reserved(next, args, i + 2, k);
            } else {
                lemma_options_keep_reserved(m, args, i + 1, k);
            },
        }
    }
}

/// No argument moves a download out of its directory, and a name chosen in
/// the dialog is the name the file is saved under: the `dir` option is
/// always the save path, and `out` is the chosen name wherever one is given.
pub proof fn lemma_download_dir_and_name(
    save_path: Seq<char>,
    output_file_name: Option<Seq<char>>,
    default_args: Seq<char>,
    task_args: Seq<char>,
    selected_file_indexes: Option<Seq<i64>>,
    proxy_url: Option<Seq<char>>,
    user_agent: Option<Seq<char>>,
    speed_limit_bytes_per_sec: Option<i64>,
    bt_max_peers: i64,
    max_connection_per_server: i64,
    split: i64,
    min_split_size: Seq<char>,
    file_allocation: Seq<char>,
    seed_time: i64,
    seed_ratio: Seq<char>,
    enable_dht: bool,
    enable_dht6: bool,
    enable_peer_exchange: bool,
    enable_lpd: bool,
)
    ensures
        ({
            let m = spec_download_options(
                save_path,
                output_file_name,
                default_args,
                task_args,
                selected_file_indexes,
                proxy_url,
                user_agent,
                speed_limit_bytes_per_sec,
                bt_max_peers,
                max_connection_per_server,
                split,
                min_split_size,
                file_allocation,
                seed_time,
                seed_ratio,
                enable_dht,
                enable_dht6,
                enable_peer_exchange,
                enable_lpd,
            );
            &&& m.contains_key("dir"@)
            &&& m["dir"@] == save_path
            &&& (output_file_name matches Some(o) && o.len() > 0) ==> m.contains_key("out"@) && m["out"@]
                == output_file_name->0
        }),
{
    reveal_strlit("dir");
    reveal_strlit("out");
    reveal_strlit("select-file");
    reveal_strlit("enable-rpc");
    reveal_strlit("bt-max-peers");
    reveal_strlit("max-connection-per-server");
    reveal_strlit("split");
    reveal_strlit("min-split-size");
    reveal_strlit("file-allocation");
    reveal_strlit("seed-time");
    reveal_strlit("seed-ratio");
    reveal_strlit("enable-dht");
    reveal_strlit("enable-dht6");
    reveal_strlit("enable-peer-exchange");
    reveal_strlit("bt-enable-lpd");
    reveal_strlit("all-proxy");
    reveal_strlit("user-agent");
    reveal_strlit("max-download-limit");
    let dir = "dir"@;
    assert(option_reserved(dir));
    let m0 = Map::<Seq<char>, Seq<char>>::empty().insert(dir, save_path);
    let a0 = tokens("--continue=true"@);
    let a1 = tokens(default_args);
    let a2 = tokens(task_args);
    lemma_options_keep_reserved(m0, a0, 0, dir);
    let m1 = options_from(m0, a0, 0);
    lemma_options_keep_reserved(m1, a1, 0, dir);
    let m2 = options_from(m1, a1, 0);
    lemma_options_keep_reserved(m2, a2, 0, dir);
    assert("out"@[0] != dir[0]);
    assert("split"@[0] != dir[0]);
}

fn trimmed_nonblank(v: Option<&str>) -> (r: Option<Vec<char>>)
    ensures
        match r {
            Some(t) => nonblank(opt_view(v)) == Some(t@),
            None => nonblank(opt_view(v)) is None,
        },
{
    match v {
        Some(s) => {
            let t = trim_str(s);
            if t.len() > 0 {
                Some(t)
            } else {
                None
            }
        },
        None => None,
    }
}

/// The options of an aria2 download. `seed_ratio` is the ratio as text.
pub fn aria2_download_options(
    save_path: &str,
    output_file_name: Option<&str>,
    default_args: &str,
    task_args: &str,
    selected_file_indexes: Option<&[i64]>,
    proxy_url: Option<&str>,
    user_agent: Option<&str>,
    speed_limit_bytes_per_sec: Option<i64>,
    aria2_bt_max_peers: i64,
    aria2_max_connection_per_server: i64,
    aria2_split: i64,
    aria2_min_split_size: &str,
    aria2_file_allocation: &str,
    aria2_seed_time: i64,
    aria2_seed_ratio: &str,
    aria2_enable_dht: bool,
    aria2_enable_dht6: bool,
    aria2_enable_peer_exchange: bool,
    aria2_enable_lpd: bool,
) -> (r: OptionMap)
    ensures
        r.wf(),
        r@ == spec_download_options(
            save_path@,
            opt_view(output_file_name),
            default_args@,
            task_args@,
            match selected_file_indexes {
                Some(ix) => Some(ix@),
                None => None,
            },
            opt_view(proxy_url),
            opt_view(user_agent),
            speed_limit_bytes_per_sec,
            aria2_bt_max_peers,
            aria2_max_connection_per_server,
            aria2_split,
            aria2_min_split_size@,
            aria2_file_allocation@,
            aria2_seed_time,
            aria2_seed_ratio@,
            aria2_enable_dht,
            aria2_enable_dht6,
            aria2_enable_peer_exchange,
            aria2_enable_lpd,
        ),
{
    let mut options = OptionMap::new();
    options.set("dir", chars_of(save_path));
    append_aria2_options(&mut options, "--continue=true");
    append_aria2_options(&mut options, default_args);
    append_aria2_options(&mut options, task_args);
    options.set("bt-max-peers", format_i64(aria2_bt_max_peers));
    options.set("max-connection-per-server", format_i64(aria2_max_connection_per_server));
    options.set("split", format_i64(aria2_split));
    options.set("min-split-size", chars_of(aria2_min_split_size));
    options.set("file-allocation", chars_of(aria2_file_allocation));
    options.set("seed-time", format_i64(aria2_seed_time));
    options.set("seed-ratio", chars_of(aria2_seed_ratio));
    options.set("enable-dht", chars_of(bool_param(aria2_enable_dht)));
    options.set("enable-dht6", chars_of(bool_param(aria2_enable_dht6)));
    options.set("enable-peer-exchange", chars_of(bool_param(aria2_enable_peer_exchange)));
    options.set("bt-enable-lpd", chars_of(bool_param(aria2_enable_lpd)));
    match trimmed_nonblank(proxy_url) {
        Some(p) => options.set("all-proxy", p),
        None => {},
    }
    match trimmed_nonblank(user_agent) {
        Some(u) => options.set("user-agent", u),
        None => {},
    }
    match speed_limit_bytes_per_sec {
        Some(l) => if l > 0 {
            options.set("max-download-limit", format_i64(l));
        },
        None => {},
    }
    match output_file_name {
        Some(o) => if !o.is_empty() {
            options.set("out", chars_of(o));
        },
        None => {},
    }
    match selected_file_indexes {
        Some(ix) => if ix.len() > 0 {
            let text = format_select_file_indexes(ix);
            options.set("select-file", chars_of(text.as_str()));
        },
        None => {},
    }
    options
}

/// The parts of a path between `/` and `\\` separators that hold more than
/// whitespace.
pub open spec fn path_parts(path: Seq<char>) -> Seq<Seq<char>> {
    crate::text::nonblank(split_seq(path, false, seq!['/', '\\']))
}

pub fn split_path_parts(path: &[char]) -> (r: Vec<Vec<char>>)
    ensures
        views(r@) == path_parts(path@),
{
    let seps: Vec<char> = vec!['/', '\\'];
    proof {
        assert(seps@ =~= seq!['/', '\\']);
    }
    let pieces = split_chars(path, false, &seps);
    nonblank_pieces(&pieces)
}

/// Two path parts name the same entry: exactly, or ignoring ASCII case on
/// Windows.
pub open spec fn same_part(a: Seq<char>, b: Seq<char>, windows: bool) -> bool {
    if windows {
        eq_ic(a, b)
    } else {
        a == b
    }
}

/// The rest of `path` below `prefix`, its parts joined with `/`, when
/// `prefix` names a directory that holds `path`.
pub open spec fn spec_strip_path_prefix(path: Seq<char>, prefix: Seq<char>, windows: bool) -> Option<
    Seq<char>,
> {
    let pp = path_parts(path);
    let qp = path_parts(prefix);
    if qp.len() == 0 || pp.len() <= qp.len() {
        None
    } else if forall|i: int| 0 <= i < qp.len() ==> same_part(#[trigger] pp[i], qp[i], windows) {
        Some(join_with(pp.skip(qp.len() as int), seq!['/']))
    } else {
        None
    }
}

pub fn strip_path_prefix(path: &[char], prefix: &[char], windows: bool) -> (r: Option<String>)
    ensures
        match r {
            Some(s) => spec_strip_path_prefix(path@, prefix@, windows) == Some(s@),
            None => spec_strip_path_prefix(path@, prefix@, windows) is None,
        },
{
    let pp = split_path_parts(path);
    let qp = split_path_parts(prefix);
    let ghost pv = views(pp@);
    let ghost qv = views(qp@);
    if qp.len() == 0 || pp.len() <= qp.len() {
        return None;
    }
    let mut i: usize = 0;
    while i < qp.len()
        invariant
            i <= qp@.len() < pp@.len(),
            pv == views(pp@),
            qv == views(qp@),
            pv == path_parts(path@),
            qv == path_parts(prefix@),
            qp@.len() > 0,
            forall|j: int| 0 <= j < i ==> same_part(#[trigger] pv[j], qv[j], windows),
        decreases qp.len() - i,
    {
        let same = if windows {
            eq_ignore_ascii_case(&pp[i], &qp[i])
        } else {
            seq_eq(&pp[i], &qp[i])
        };
        proof {
            assert(pv[i as int] == pp@[i as int]@);
            assert(qv[i as int] == qp@[i as int]@);
        }
        if !same {
            proof {
                assert(!same_part(pv[i as int], qv[i as int], windows));
            }
            return None;
        }
        i = i + 1;
    }
    let mut rest: Vec<Vec<char>> = Vec::new();
    let mut k: usize = qp.len();
    while k < pp.len()
        invariant
            qp@.len() <= k <= pp@.len(),
            pv == views(pp@),
            views(rest@) == pv.subrange(qp@.len() as int, k as int),
        decreases pp.len() - k,
    {
        let x = slice_vec(&pp[k], 0, pp[k].len());
        proof {
            assert(x@ =~= pp@[k as int]@);
        }
        let ghost before = rest@;
        rest.push(x);
        proof {
            assert(views(rest@) =~= views(before).push(x@));
            assert(pv[k as int] == pp@[k as int]@);
            assert(views(rest@) =~= pv.subrange(qp@.len() as int, k + 1));
        }
        k = k + 1;
    }
    let slash: Vec<char> = vec!['/'];
    proof {
        assert(slash@ =~= seq!['/']);
        assert(pv.subrange(qp@.len() as int, k as int) =~= pv.skip(qv.len() as int));
    }
    Some(string_of(&join_chars(&rest, &slash)))
}

/// The path of a file as aria2 reports it, shown relative to the save
/// directory when it lies below it.
pub open spec fn spec_display_file_path(path: Seq<char>, save_path: Option<Seq<char>>, windows: bool) -> Seq<char> {
    match nonblank(save_path) {
        None => path,
        Some(sp) => match spec_strip_path_prefix(path, sp, windows) {
            Some(d) => d,
            None => path,
        },
    }
}

pub fn aria2_display_file_path(path: &str, save_path: Option<&str>, windows: bool) -> (r: String)
    ensures
        r@ == spec_display_file_path(path@, opt_view(save_path), windows),
{
    let sp = match trimmed_nonblank(save_path) {
        Some(sp) => sp,
        None => return path.to_owned(),
    };
    let p = chars_of(path);
    match strip_path_prefix(&p, &sp, windows) {
        Some(d) => d,
        None => path.to_owned(),
    }
}

/// How many leading parts two part lists share.
pub open spec fn common_prefix_len(a: Seq<Seq<char>>, b: Seq<Seq<char>>) -> nat
    decreases a.len(),
{
    if a.len() == 0 || b.len() == 0 || a[0] != b[0] {
        0
    } else {
        1 + common_prefix_len(a.drop_first(), b.drop_first())
    }
}

/// The number of leading parts that the first path shares with every other
/// path from the `i`-th on, starting from `c`.
pub open spec fn common_len_from(first: Seq<Seq<char>>, paths: Seq<Seq<char>>, i: int, c: nat) -> nat
    decreases paths.len() - i,
{
    if i < 1 || i >= paths.len() {
        c
    } else {
        let l = common_prefix_len(first, path_parts(paths[i]));
        common_len_from(first, paths, i + 1, if l < c { l } else { c })
    }
}

/// The top-level entry of a download made of several paths: the deepest
/// part that all the paths share, or the first part of the first path when
/// they share none.
pub open spec fn spec_common_entry_name(paths: Seq<Seq<char>>) -> Option<Seq<char>> {
    if paths.len() == 0 {
        None
    } else {
        let first = path_parts(paths[0]);
        if first.len() == 0 {
            None
        } else {
            let c = common_len_from(first, paths, 1, first.len());
            if c == 0 {
                Some(first[0])
            } else {
                Some(first[c - 1])
            }
        }
    }
}

proof fn lemma_common_len_bound(first: Seq<Seq<char>>, paths: Seq<Seq<char>>, i: int, c: nat)
    ensures
        common_len_from(first, paths, i, c) <= c,
    decreases paths.len() - i,
{
    if !(i < 1 || i >= paths.len()) {
        let l = common_prefix_len(first, path_parts(paths[i]));
        lemma_common_len_bound(first, paths, i + 1, if l < c { l } else { c });
    }
}

fn common_prefix_count(a: &[Vec<char>], b: &[Vec<char>]) -> (r: usize)
    ensures
        r == common_prefix_len(views(a@), views(b@)),
{
    let ghost av = views(a@);
    let ghost bv = views(b@);
    let mut i: usize = 0;
    proof {
        assert(av.skip(0) =~= av);
        assert(bv.skip(0) =~= bv);
    }
    while i < a.len() && i < b.len() && seq_eq(&a[i], &b[i])
        invariant
            i <= a@.len(),
            i <= b@.len(),
            av == views(a@),
            bv == views(b@),
            common_prefix_len(av, bv) == i + common_prefix_len(av.skip(i as int), bv.skip(i as int)),
        decreases a.len() - i,
    {
        proof {
            assert(av.skip(i as int)[0] == a@[i as int]@);
            assert(bv.skip(i as int)[0] == b@[i as int]@);
            assert(av.skip(i as int).drop_first() =~= av.skip(i + 1));
            assert(bv.skip(i as int).drop_first() =~= bv.skip(i + 1));
        }
        i = i + 1;
    }
    proof {
        if i < a.len() && i < b.len() {
            assert(av.skip(i as int)[0] == a@[i as int]@);
            assert(bv.skip(i as int)[0] == b@[i as int]@);
        }
    }
    i
}

/// The top-level entry that the paths of a download share.
pub fn common_download_entry_name(paths: &[String]) -> (r: Option<String>)
    ensures
        match r {
            Some(n) => spec_common_entry_name(paths@.map_values(|p: String| p@)) == Some(n@),
            None => spec_common_entry_name(paths@.map_values(|p: String| p@)) is None,
        },
{
    let ghost ps = paths@.map_values(|p: String| p@);
    if paths.len() == 0 {
        return None;
    }
    let first_text = chars_of(paths[0].as_str());
    let first = split_path_parts(&first_text);
    let ghost fv = views(first@);
    proof {
        assert(ps[0] == paths@[0]@);
    }
    if first.len() == 0 {
        return None;
    }
    let mut common: usize = first.len();
    let mut i: usize = 1;
    while i < paths.len()
        invariant
            1 <= i <= paths@.len(),
            ps == paths@.map_values(|p: String| p@),
            fv == views(first@),
            fv == path_parts(ps[0]),
            common <= first@.len(),
            common_len_from(fv, ps, 1, fv.len()) == common_len_from(fv, ps, i as int, common as nat),
        decreases paths.len() - i,
    {
        let text = chars_of(paths[i].as_str());
        let parts = split_path_parts(&text);
        proof {
            assert(ps[i as int] == paths@[i as int]@);
        }
        let l = common_prefix_count(&first, &parts);
        if l < common {
            common = l;
        }
        i = i + 1;
    }
    proof {
        lemma_common_len_bound(fv, ps, i as int, common as nat);
    }
    if common == 0 {
        proof {
            assert(fv[0] == first@[0]@);
        }
        Some(string_of(&first[0]))
    } else {
        proof {
            assert(fv[common - 1] == first@[common - 1]@);
        }
        Some(string_of(&first[common - 1]))
    }
}

/// The paths that hold more than whitespace.
pub open spec fn keep_nonblank(paths: Seq<Seq<char>>) -> Seq<Seq<char>>
    decreases paths.len(),
{
    if paths.len() == 0 {
        paths
    } else if trim(paths.last()).len() > 0 {
        keep_nonblank(paths.drop_last()).push(paths.last())
    } else {
        keep_nonblank(paths.drop_last())
    }
}

/// The top-level entry of an aria2 download, from the paths of its files:
/// those that hold more than whitespace, and the entry they share.
pub open spec fn spec_top_level_name(paths: Seq<Seq<char>>) -> Option<Seq<char>> {
    let kept = keep_nonblank(paths);
    if kept.len() == 0 {
        None
    } else {
        spec_common_entry_name(kept)
    }
}

pub fn aria2_top_level_name(paths: &[String]) -> (r: Option<String>)
    ensures
        match r {
            Some(n) => spec_top_level_name(paths@.map_values(|p: String| p@)) == Some(n@),
            None => spec_top_level_name(paths@.map_values(|p: String| p@)) is None,
        },
{
    let ghost ps = paths@.map_values(|p: String| p@);
    let mut kept: Vec<String> = Vec::new();
    let mut i: usize = 0;
    proof {
        assert(ps.take(0) =~= Seq::<Seq<char>>::empty());
        assert(kept@.map_values(|p: String| p@) =~= Seq::<Seq<char>>::empty());
    }
    while i < paths.len()
        invariant
            i <= paths@.len(),
            ps == paths@.map_values(|p: String| p@),
            kept@.map_values(|p: String| p@) == keep_nonblank(ps.take(i as int)),
        decreases paths.len() - i,
    {
        let t = trim_str(paths[i].as_str());
        proof {
            assert(ps.take(i + 1).drop_last() =~= ps.take(i as int));
            assert(ps.take(i + 1).last() == paths@[i as int]@);
        }
        if t.len() > 0 {
            let c = string_of(&chars_of(paths[i].as_str()));
            let ghost before = kept@;
            kept.push(c);
            proof {
                assert(kept@.map_values(|p: String| p@) =~= before.map_values(|p: String| p@).push(c@));
            }
        }
        i = i + 1;
    }
    proof {
        assert(ps.take(i as int) =~= ps);
    }
    if kept.len() == 0 {
        return None;
    }
    common_download_entry_name(&kept)
}

/// The RPC call that removes an aria2 download in the given state: an
/// unfinished one is removed, a finished one has its result removed.
pub open spec fn spec_delete_method(status: Seq<char>) -> Option<Seq<char>> {
    if status == "active"@ || status == "waiting"@ || status == "paused"@ {
        Some("aria2.remove"@)
    } else if status == "complete"@ || status == "error"@ || status == "removed"@ {
        Some("aria2.removeDownloadResult"@)
    } else {
        None
    }
}

pub fn aria2_delete_method(status: &str) -> (r: Option<&'static str>)
    ensures
        match r {
            Some(m) => spec_delete_method(status@) == Some(m@),
            None => spec_delete_method(status@) is None,
        },
{
    let s = chars_of(status);
    if seq_eq(&s, &chars_of("active")) || seq_eq(&s, &chars_of("waiting")) || seq_eq(
        &s,
        &chars_of("paused"),
    ) {
        Some("aria2.remove")
    } else if seq_eq(&s, &chars_of("complete")) || seq_eq(&s, &chars_of("error")) || seq_eq(
        &s,
        &chars_of("removed"),
    ) {
        Some("aria2.removeDownloadResult")
    } else {
        None
    }
}

/// An aria2 error that says the download is unknown to it.
pub fn aria2_task_missing(message: &str) -> (r: bool)
    ensures
        r == contains_seq(message@, "is not found"@),
{
    let m = chars_of(message);
    let p = chars_of("is not found");
    contains(&m, &p)
}

/// A download that aria2 cannot be reached for, or no longer knows, can be
/// resumed once aria2 runs again.
pub fn aria2_resumable_after_restart(unavailable: bool, message: &str) -> (r: bool)
    ensures
        r == (unavailable || contains_seq(message@, "is not found"@)),
{
    unavailable || aria2_task_missing(message)
}

/// The state of a task whose status request to aria2 failed: where aria2
/// could not be reached or no longer knows the download, the task is held
/// as paused with its progress, bytes and id, and no error; any other
/// failure gives no state, and the error stands.
pub fn aria2_refresh_failed_state(unavailable: bool, message: &str, task: &TaskSnapshot) -> (r: Option<EngineTaskState>)
    ensures
        (unavailable || contains_seq(message@, "is not found"@)) <==> r is Some,
        r matches Some(s) ==> {
            &&& s.status == DownloadStatus::Paused
            &&& s.progress == ProgressValue::Kept
            &&& s.speed_bytes_per_sec == 0
            &&& s.downloaded_bytes == task.downloaded_bytes
            &&& s.total_bytes == task.total_bytes
            &&& string_opt_view(s.engine_task_id) == string_opt_view(task.engine_task_id)
            &&& s.file_name is None
            &&& s.error_message is None
        },
{
    if aria2_resumable_after_restart(unavailable, message) {
        Some(EngineTaskState::held(DownloadStatus::Paused, task, None))
    } else {
        None
    }
}


// ---------------------------------------------------------------------
// The engine's answers
// ---------------------------------------------------------------------
/// What aria2 reports of a download, as read from its status answer.
pub struct Aria2Status {
    pub status: Option<String>,
    pub total_length: Option<i64>,
    pub completed_length: Option<i64>,
    pub download_speed: Option<i64>,
    pub error_message: Option<String>,
    /// The torrent's name (`bittorrent.info.name`), as given.
    pub bittorrent_name: Option<String>,
    /// The downloads that follow this one (`followedBy`).
    pub followed_by: Vec<String>,
}

/// The torrent name that aria2 reports, where it holds more than whitespace.
pub open spec fn spec_bittorrent_name(raw: Option<Seq<char>>) -> Option<Seq<char>> {
    match raw {
        Some(n) => if trim(n).len() > 0 {
            Some(n)
        } else {
            None
        },
        None => None,
    }
}

pub fn aria2_bittorrent_name(raw: &Option<String>) -> (r: Option<String>)
    ensures
        string_opt_view(r) == spec_bittorrent_name(string_opt_view(*raw)),
{
    match raw {
        Some(n) => if trim_str(n.as_str()).len() > 0 {
            Some(string_of(&chars_of(n.as_str())))
        } else {
            None
        },
        None => None,
    }
}

/// The task status that an aria2 status stands for: a finished magnet link
/// whose download continues under another id is still running.
pub open spec fn spec_aria2_status(status: Seq<char>, magnet_followed: bool) -> DownloadStatus {
    if status == "complete"@ && magnet_followed {
        DownloadStatus::Running
    } else if status == "complete"@ {
        DownloadStatus::Completed
    } else if status == "active"@ {
        DownloadStatus::Running
    } else if status == "waiting"@ {
        DownloadStatus::Queued
    } else if status == "paused"@ {
        DownloadStatus::Paused
    } else if status == "removed"@ {
        DownloadStatus::Deleted
    } else {
        DownloadStatus::Failed
    }
}

fn aria2_status_of(status: &str, magnet_followed: bool) -> (r: DownloadStatus)
    ensures
        r == spec_aria2_status(status@, magnet_followed),
{
    let s = chars_of(status);
    if seq_eq(&s, &chars_of("complete")) {
        if magnet_followed {
            DownloadStatus::Running
        } else {
            DownloadStatus::Completed
        }
    } else if seq_eq(&s, &chars_of("active")) {
        DownloadStatus::Running
    } else if seq_eq(&s, &chars_of("waiting")) {
        DownloadStatus::Queued
    } else if seq_eq(&s, &chars_of("paused")) {
        DownloadStatus::Paused
    } else if seq_eq(&s, &chars_of("removed")) {
        DownloadStatus::Deleted
    } else {
        DownloadStatus::Failed
    }
}

/// The id that a refreshed task goes on under: the first download that
/// follows it, else its own.
pub open spec fn spec_next_engine_id(followed_by: Seq<String>, current: Option<Seq<char>>) -> Option<Seq<char>> {
    if followed_by.len() > 0 {
        Some(followed_by[0]@)
    } else {
        current
    }
}

/// A task's state from aria2's status of it: the mapped status (`error`
/// where none is given), the bytes and speed (0 where missing), progress
/// from the bytes where the total is known, the error where one is given,
/// the torrent's name trimmed, and the next engine id.
pub open spec fn spec_refresh_matches(
    r: EngineTaskState,
    answer: Aria2Status,
    gid: Seq<char>,
    source_type: SourceType,
    task: TaskSnapshot,
) -> bool {
    let total = match answer.total_length {
        Some(t) => t,
        None => 0,
    };
    let completed = match answer.completed_length {
        Some(c) => c,
        None => 0,
    };
    let next = spec_next_engine_id(answer.followed_by@, string_opt_view(task.engine_task_id));
    let status_text = match answer.status {
        Some(st) => st@,
        None => "error"@,
    };
    &&& r.status == spec_aria2_status(
        status_text,
        source_type == SourceType::Magnet && next != Some(gid),
    )
    &&& r.total_bytes == total
    &&& r.downloaded_bytes == completed
    &&& r.speed_bytes_per_sec == (match answer.download_speed {
        Some(v) => v,
        None => 0,
    })
    &&& r.progress == (if total > 0 {
        ProgressValue::OfBytes { completed, total }
    } else {
        ProgressValue::Kept
    })
    &&& string_opt_view(r.error_message) == (match answer.error_message {
        Some(m) => if m@.len() > 0 {
            Some(m@)
        } else {
            None
        },
        None => None,
    })
    &&& string_opt_view(r.file_name) == (match spec_bittorrent_name(string_opt_view(answer.bittorrent_name)) {
        Some(n) => Some(trim(n)),
        None => None,
    })
    &&& string_opt_view(r.engine_task_id) == next
}

/// What a refresh makes of aria2's status word: `removed` is deleted,
/// `paused` paused, `waiting` queued, `active` running, `complete`
/// completed (or still running where a magnet link's download goes on under
/// another id); only `error`, a missing status or a word aria2 does not use
/// gives a failed task.
pub proof fn lemma_aria2_refresh_status(
    r: EngineTaskState,
    answer: Aria2Status,
    gid: Seq<char>,
    source_type: SourceType,
    task: TaskSnapshot,
)
    requires
        spec_refresh_matches(r, answer, gid, source_type, task),
    ensures
        ({
            let word = match answer.status {
                Some(st) => st@,
                None => "error"@,
            };
            let known = word == "removed"@ || word == "paused"@ || word == "waiting"@ || word == "active"@
                || word == "complete"@;
            &&& word == "removed"@ ==> r.status == DownloadStatus::Deleted
            &&& word == "paused"@ ==> r.status == DownloadStatus::Paused
            &&& word == "waiting"@ ==> r.status == DownloadStatus::Queued
            &&& word == "active"@ ==> r.status == DownloadStatus::Running
            &&& word == "complete"@ ==> (r.status == DownloadStatus::Completed || r.status == DownloadStatus::Running)
            &&& word == "complete"@ && source_type != SourceType::Magnet ==> r.status == DownloadStatus::Completed
            &&& (r.status == DownloadStatus::Failed <==> !known)
        }),
{
    reveal_strlit("removed");
    reveal_strlit("paused");
    reveal_strlit("waiting");
    reveal_strlit("active");
    reveal_strlit("complete");
    reveal_strlit("error");
    let word = match answer.status {
        Some(st) => st@,
        None => "error"@,
    };
    let followed = source_type == SourceType::Magnet && spec_next_engine_id(
        answer.followed_by@,
        string_opt_view(task.engine_task_id),
    ) != Some(gid);
    assert(r.status == spec_aria2_status(word, followed));
    assert("removed"@ != "paused"@ && "removed"@ != "waiting"@ && "removed"@ != "active"@ && "removed"@ != "complete"@) by {
        assert("removed"@[0] != "paused"@[0]);
        assert("removed"@.len() != "waiting"@.len() || "removed"@[0] != "waiting"@[0]);
        assert("removed"@[0] != "active"@[0]);
        assert("removed"@[0] != "complete"@[0]);
    }
    assert("paused"@ != "waiting"@ && "paused"@ != "active"@ && "paused"@ != "complete"@) by {
        assert("paused"@[0] != "waiting"@[0]);
        assert("paused"@[0] != "active"@[0]);
        assert("paused"@[0] != "complete"@[0]);
    }
    assert("waiting"@ != "active"@ && "waiting"@ != "complete"@) by {
        assert("waiting"@[0] != "active"@[0]);
        assert("waiting"@[0] != "complete"@[0]);
    }
    assert("active"@ != "complete"@) by {
        assert("active"@[0] != "complete"@[0]);
    }
}

pub fn aria2_refresh_state(
    answer: &Aria2Status,
    gid: &str,
    source_type: SourceType,
    task: &TaskSnapshot,
) -> (r: EngineTaskState)
    ensures
        spec_refresh_matches(r, *answer, gid@, source_type, *task),
{
    let total = match answer.total_length {
        Some(t) => t,
        None => 0,
    };
    let completed = match answer.completed_length {
        Some(c) => c,
        None => 0,
    };
    let speed = match answer.download_speed {
        Some(v) => v,
        None => 0,
    };
    let next = if answer.followed_by.len() > 0 {
        Some(string_of(&chars_of(answer.followed_by[0].as_str())))
    } else {
        copy_opt(&task.engine_task_id)
    };
    let followed = match &next {
        Some(n) => !seq_eq(&chars_of(n.as_str()), &chars_of(gid)),
        None => true,
    };
    let status = match &answer.status {
        Some(st) => aria2_status_of(st.as_str(), source_type == SourceType::Magnet && followed),
        None => {
            let e = aria2_status_of("error", source_type == SourceType::Magnet && followed);
            e
        },
    };
    let error_message = match &answer.error_message {
        Some(m) => if chars_of(m.as_str()).len() > 0 {
            Some(string_of(&chars_of(m.as_str())))
        } else {
            None
        },
        None => None,
    };
    let file_name = match aria2_bittorrent_name(&answer.bittorrent_name) {
        Some(n) => Some(string_of(&trim_str(n.as_str()))),
        None => None,
    };
    EngineTaskState {
        status,
        progress: if total > 0 {
            ProgressValue::OfBytes { completed, total }
        } else {
            ProgressValue::Kept
        },
        speed_bytes_per_sec: speed,
        downloaded_bytes: completed,
        total_bytes: total,
        engine_task_id: next,
        file_name,
        error_message,
    }
}

/// The state after asking aria2 to pause a download: paused where it did;
/// failed, with a note, where aria2 could not be reached; where aria2
/// refused, nothing (its error is reported).
pub fn aria2_pause_state(task: &TaskSnapshot, rpc_failed: bool, unavailable: bool) -> (r: Option<EngineTaskState>)
    ensures
        !rpc_failed ==> (r matches Some(s) && s.status == DownloadStatus::Paused && s.error_message is None),
        rpc_failed && unavailable ==> (r matches Some(s) && s.status == DownloadStatus::Failed
            && string_opt_view(s.error_message) == Some("aria2 rpc is unavailable"@)),
        rpc_failed && !unavailable ==> r is None,
        r matches Some(s) ==> s.progress == ProgressValue::Kept && s.speed_bytes_per_sec == 0
            && s.downloaded_bytes == task.downloaded_bytes && s.total_bytes == task.total_bytes
            && string_opt_view(s.engine_task_id) == string_opt_view(task.engine_task_id),
{
    if !rpc_failed {
        Some(EngineTaskState::held(DownloadStatus::Paused, task, None))
    } else if unavailable {
        Some(
            EngineTaskState::held(
                DownloadStatus::Failed,
                task,
                Some(string_of(&chars_of("aria2 rpc is unavailable"))),
            ),
        )
    } else {
        None
    }
}

/// The downloads whose files may list a magnet link's content: those that
/// follow it, then the link's own where aria2 knows the torrent's name.
pub open spec fn spec_candidate_gids(followed_by: Seq<Seq<char>>, has_name: bool, gid: Seq<char>) -> Seq<Seq<char>> {
    if has_name {
        followed_by.push(gid)
    } else {
        followed_by
    }
}

pub fn aria2_candidate_file_gids(followed_by: &[String], has_name: bool, gid: &str) -> (r: Vec<String>)
    ensures
        r@.map_values(|g: String| g@) == spec_candidate_gids(followed_by@.map_values(|g: String| g@), has_name, gid@),
{
    let mut r: Vec<String> = Vec::new();
    let mut i: usize = 0;
    while i < followed_by.len()
        invariant
            i <= followed_by@.len(),
            r@.map_values(|g: String| g@) == followed_by@.take(i as int).map_values(|g: String| g@),
        decreases followed_by.len() - i,
    {
        r.push(string_of(&chars_of(followed_by[i].as_str())));
        proof {
            assert(followed_by@.take(i + 1).map_values(|g: String| g@) =~= followed_by@.take(
                i as int,
            ).map_values(|g: String| g@).push(followed_by@[i as int]@));
        }
        i = i + 1;
    }
    proof {
        assert(followed_by@.take(followed_by@.len() as int) =~= followed_by@);
    }
    if has_name {
        let ghost before = r@;
        r.push(string_of(&chars_of(gid)));
        proof {
            assert(r@.map_values(|g: String| g@) =~= before.map_values(|g: String| g@).push(gid@));
        }
    }
    r
}

/// A file as aria2's file list gives it.
pub struct Aria2File {
    pub path: Option<String>,
    pub length: Option<String>,
    pub completed_length: Option<String>,
}

/// The entries of the files with a path that holds more than whitespace,
/// numbered from 1 by their place in aria2's list, with the path shown
/// relative to the save path; each needs a length.
pub open spec fn spec_file_entries(
    files: Seq<Aria2File>,
    save_path: Option<Seq<char>>,
    windows: bool,
    n: int,
) -> Option<Seq<(i64, Seq<char>, i64, i64)>>
    decreases n,
{
    if n <= 0 || n > files.len() {
        Some(Seq::empty())
    } else {
        match spec_file_entries(files, save_path, windows, n - 1) {
            None => None,
            Some(before) => {
                let f = files[n - 1];
                match f.path {
                    None => Some(before),
                    Some(p) => if trim(p@).len() == 0 {
                        Some(before)
                    } else {
                        match (match f.length {
                            Some(l) => parse_i64_spec(l@),
                            None => None,
                        }) {
                            None => None,
                            Some(len) => Some(
                                before.push(
                                    (
                                        n as i64,
                                        spec_display_file_path(trim(p@), save_path, windows),
                                        len,
                                        match (match f.completed_length {
                                            Some(c) => parse_i64_spec(c@),
                                            None => None,
                                        }) {
                                            Some(c) => c,
                                            None => 0,
                                        },
                                    ),
                                ),
                            ),
                        }
                    },
                }
            },
        }
    }
}

pub open spec fn file_entry_views(v: Seq<EngineFileEntry>) -> Seq<(i64, Seq<char>, i64, i64)> {
    v.map_values(|e: EngineFileEntry| (e.index, e.path@, e.length, e.completed_length))
}

pub fn aria2_file_entries(files: &[Aria2File], save_path: Option<&str>, windows: bool) -> (r: Result<
    Vec<EngineFileEntry>,
    &'static str,
>)
    requires
        files@.len() < i64::MAX,
    ensures
        match r {
            Ok(v) => spec_file_entries(files@, opt_view(save_path), windows, files@.len() as int) == Some(
                file_entry_views(v@),
            ),
            Err(m) => spec_file_entries(files@, opt_view(save_path), windows, files@.len() as int) is None
                && m@ == "aria2 file length is missing"@,
        },
{
    let mut out: Vec<EngineFileEntry> = Vec::new();
    let mut i: usize = 0;
    proof {
        assert(file_entry_views(out@) =~= Seq::<(i64, Seq<char>, i64, i64)>::empty());
    }
    while i < files.len()
        invariant
            i <= files@.len(),
            files@.len() < i64::MAX,
            spec_file_entries(files@, opt_view(save_path), windows, i as int) == Some(file_entry_views(out@)),
        decreases files.len() - i,
    {
        let f = &files[i];
        match &f.path {
            None => {},
            Some(p) => {
                let t = trim_str(p.as_str());
                if t.len() > 0 {
                    let len = match &f.length {
                        Some(l) => parse_i64(&chars_of(l.as_str())),
                        None => None,
                    };
                    match len {
                        None => {
                            proof {
                                lemma_file_entries_fail(files@, opt_view(save_path), windows, i as int + 1);
                            }
                            return Err("aria2 file length is missing");
                        },
                        Some(length) => {
                            let completed = match &f.completed_length {
                                Some(c) => match parse_i64(&chars_of(c.as_str())) {
                                    Some(v) => v,
                                    None => 0,
                                },
                                None => 0,
                            };
                            let shown = aria2_display_file_path(string_of(&t).as_str(), save_path, windows);
                            let ghost before = out@;
                            out.push(EngineFileEntry { index: (i + 1) as i64, path: shown, length, completed_length: completed });
                            proof {
                                assert(file_entry_views(out@) =~= file_entry_views(before).push(
                                    ((i + 1) as i64, shown@, length, completed),
                                ));
                            }
                        },
                    }
                }
            },
        }
        i = i + 1;
    }
    Ok(out)
}

proof fn lemma_file_entries_fail(files: Seq<Aria2File>, save_path: Option<Seq<char>>, windows: bool, n: int)
    requires
        0 < n <= files.len(),
        spec_file_entries(files, save_path, windows, n) is None,
    ensures
        spec_file_entries(files, save_path, windows, files.len() as int) is None,
    decreases files.len() - n,
{
    if n < files.len() {
        assert(spec_file_entries(files, save_path, windows, n + 1) is None);
        lemma_file_entries_fail(files, save_path, windows, n + 1);
    }
}


// ---------------------------------------------------------------------
// Starting aria2 and adding downloads
// ---------------------------------------------------------------------
fn flag(prefix: &str, value: &[char]) -> (r: String)
    ensures
        r@ == prefix@ + value@,
{
    let mut v = chars_of(prefix);
    extend_vec(&mut v, value);
    string_of(&v)
}

/// The arguments that aria2 is started with: RPC on for this machine only,
/// the base and configured arguments, then the transfer, BitTorrent and
/// seeding settings, the RPC port and the download directory.
pub open spec fn spec_process_args(
    default_args: Seq<char>,
    max_connection_per_server: i64,
    split: i64,
    min_split_size: Seq<char>,
    file_allocation: Seq<char>,
    rpc_listen_port: u16,
    enable_dht: bool,
    enable_dht6: bool,
    enable_peer_exchange: bool,
    enable_lpd: bool,
    bt_listen_port: i64,
    bt_max_peers: i64,
    seed_time: i64,
    seed_ratio: Seq<char>,
    save_path: Seq<char>,
) -> Seq<Seq<char>> {
    seq!["--enable-rpc=true"@, "--rpc-listen-all=false"@, "--continue=true"@] + tokens(default_args) + seq![
        "--max-connection-per-server="@ + dec_int(max_connection_per_server as int),
        "--split="@ + dec_int(split as int),
        "--min-split-size="@ + min_split_size,
        "--file-allocation="@ + file_allocation,
        "--rpc-listen-port="@ + dec_int(rpc_listen_port as int),
        "--enable-dht="@ + bool_text(enable_dht),
        "--enable-dht6="@ + bool_text(enable_dht6),
        "--enable-peer-exchange="@ + bool_text(enable_peer_exchange),
        "--bt-enable-lpd="@ + bool_text(enable_lpd),
        "--listen-port="@ + dec_int(bt_listen_port as int),
        "--bt-max-peers="@ + dec_int(bt_max_peers as int),
        "--seed-time="@ + dec_int(seed_time as int),
        "--seed-ratio="@ + seed_ratio,
        "--dir="@ + save_path,
    ]
}

/// The arguments that aria2 is started with. `seed_ratio` is the ratio as
/// text.
pub fn aria2_process_args(
    default_args: &str,
    max_connection_per_server: i64,
    split: i64,
    min_split_size: &str,
    file_allocation: &str,
    rpc_listen_port: u16,
    enable_dht: bool,
    enable_dht6: bool,
    enable_peer_exchange: bool,
    enable_lpd: bool,
    bt_listen_port: i64,
    bt_max_peers: i64,
    seed_time: i64,
    seed_ratio: &str,
    save_path: &str,
) -> (r: Vec<String>)
    ensures
        r@.map_values(|a: String| a@) == spec_process_args(
            default_args@,
            max_connection_per_server,
            split,
            min_split_size@,
            file_allocation@,
            rpc_listen_port,
            enable_dht,
            enable_dht6,
            enable_peer_exchange,
            enable_lpd,
            bt_listen_port,
            bt_max_peers,
            seed_time,
            seed_ratio@,
            save_path@,
        ),
{
    let mut r: Vec<String> = Vec::new();
    r.push(string_of(&chars_of("--enable-rpc=true")));
    r.push(string_of(&chars_of("--rpc-listen-all=false")));
    r.push(string_of(&chars_of("--continue=true")));
    let parts = split_whitespace(&chars_of(default_args));
    let mut i: usize = 0;
    let ghost head = r@.map_values(|a: String| a@);
    while i < parts.len()
        invariant
            i <= parts@.len(),
            views(parts@) == tokens(default_args@),
            r@.map_values(|a: String| a@) == head + views(parts@).take(i as int),
        decreases parts.len() - i,
    {
        let ghost before = r@;
        r.push(string_of(&parts[i]));
        proof {
            assert(r@.map_values(|a: String| a@) =~= before.map_values(|a: String| a@).push(parts@[i as int]@));
            assert(views(parts@).take(i + 1) =~= views(parts@).take(i as int).push(parts@[i as int]@));
        }
        i = i + 1;
    }
    proof {
        assert(views(parts@).take(parts@.len() as int) =~= views(parts@));
    }
    let ghost mid = r@.map_values(|a: String| a@);
    let a1 = flag("--max-connection-per-server=", &format_i64(max_connection_per_server));
    let a2 = flag("--split=", &format_i64(split));
    let a3 = flag("--min-split-size=", &chars_of(min_split_size));
    let a4 = flag("--file-allocation=", &chars_of(file_allocation));
    let a5 = flag("--rpc-listen-port=", &format_i64(rpc_listen_port as i64));
    let a6 = flag("--enable-dht=", &chars_of(bool_param(enable_dht)));
    let a7 = flag("--enable-dht6=", &chars_of(bool_param(enable_dht6)));
    let a8 = flag("--enable-peer-exchange=", &chars_of(bool_param(enable_peer_exchange)));
    let a9 = flag("--bt-enable-lpd=", &chars_of(bool_param(enable_lpd)));
    let a10 = flag("--listen-port=", &format_i64(bt_listen_port));
    let a11 = flag("--bt-max-peers=", &format_i64(bt_max_peers));
    let a12 = flag("--seed-time=", &format_i64(seed_time));
    let a13 = flag("--seed-ratio=", &chars_of(seed_ratio));
    let a14 = flag("--dir=", &chars_of(save_path));
    let ghost tail = seq![a1@, a2@, a3@, a4@, a5@, a6@, a7@, a8@, a9@, a10@, a11@, a12@, a13@, a14@];
    let mut rest: Vec<String> = vec![a1, a2, a3, a4, a5, a6, a7, a8, a9, a10, a11, a12, a13, a14];
    proof {
        assert(rest@.map_values(|a: String| a@) =~= tail);
    }
    r.append(&mut rest);
    proof {
        assert(r@.map_values(|a: String| a@) =~= mid + tail);
        assert(head =~= seq!["--enable-rpc=true"@, "--rpc-listen-all=false"@, "--continue=true"@]);
    }
    proof {
        assert(r@.map_values(|a: String| a@) =~= spec_process_args(
            default_args@,
            max_connection_per_server,
            split,
            min_split_size@,
            file_allocation@,
            rpc_listen_port,
            enable_dht,
            enable_dht6,
            enable_peer_exchange,
            enable_lpd,
            bt_listen_port,
            bt_max_peers,
            seed_time,
            seed_ratio@,
            save_path@,
        ));
    }
    r
}

/// What `reqwest::Url` makes of a text: the explicit port of the URL it
/// parses to, or the parse error's message.
pub uninterp spec fn url_port(url: Seq<char>) -> Result<Option<u16>, Seq<char>>;

/// `reqwest::Url::parse(url)` and then `port()`: the port written in the
/// URL (none where the URL leaves the scheme's default), or the parse
/// error's text. The result is named, not stated.
#[verifier::external_body]
fn parse_url_port(url: &str) -> (r: Result<Option<u16>, String>)
    ensures
        match r {
            Ok(p) => url_port(url@) == Ok::<Option<u16>, Seq<char>>(p),
            Err(e) => url_port(url@) == Err::<Option<u16>, Seq<char>>(e@),
        },
{
    match reqwest::Url::parse(url) {
        Ok(parsed) => Ok(parsed.port()),
        Err(error) => Err(error.to_string()),
    }
}

/// The port that aria2's RPC listens on: the one in its RPC address, which
/// must name one.
pub open spec fn spec_listen_port(connection_url: Option<Seq<char>>) -> Result<u16, Seq<char>> {
    match url_port(spec_aria2_rpc_url(connection_url)) {
        Err(e) => Err(e),
        Ok(None) => Err("aria2 rpc url must include port"@),
        Ok(Some(p)) => Ok(p),
    }
}

pub fn aria2_rpc_listen_port(connection_url: Option<&str>) -> (r: Result<u16, String>)
    ensures
        match r {
            Ok(p) => spec_listen_port(opt_view(connection_url)) == Ok::<u16, Seq<char>>(p),
            Err(e) => spec_listen_port(opt_view(connection_url)) == Err::<u16, Seq<char>>(e@),
        },
{
    let url = aria2_rpc_url(connection_url);
    match parse_url_port(url.as_str()) {
        Err(e) => Err(e),
        Ok(None) => Err(string_of(&chars_of("aria2 rpc url must include port"))),
        Ok(Some(p)) => Ok(p),
    }
}

/// The name that aria2 saves a download under: the task's file name,
/// trimmed, for HTTP and FTP; the torrent decides for the others.
pub fn aria2_output_file_name(source_type: SourceType, file_name: &str) -> (r: Option<String>)
    ensures
        (source_type == SourceType::Http || source_type == SourceType::Ftp) ==> (r matches Some(n)
            && n@ == trim(file_name@)),
        !(source_type == SourceType::Http || source_type == SourceType::Ftp) ==> r is None,
{
    match source_type {
        SourceType::Http | SourceType::Ftp => Some(string_of(&trim_str(file_name))),
        _ => None,
    }
}

/// The digit of a 6-bit value in the standard base64 alphabet
/// (RFC 4648, table 1).
pub open spec fn base64_digit(v: int) -> char {
    if v < 26 {
        (65 + v) as char
    } else if v < 52 {
        (97 + v - 26) as char
    } else if v < 62 {
        (48 + v - 52) as char
    } else if v == 62 {
        '+'
    } else {
        '/'
    }
}

/// Standard base64 with padding (RFC 4648, section 4): each group of three
/// bytes, read as a 24-bit number, gives four digits of six bits each; a
/// last group of one or two bytes is filled with zero bits and its missing
/// digits are written `=`.
pub open spec fn base64_standard(bytes: Seq<u8>) -> Seq<char>
    decreases bytes.len(),
{
    if bytes.len() == 0 {
        Seq::empty()
    } else {
        let b1: int = if bytes.len() > 1 { bytes[1] as int } else { 0 };
        let b2: int = if bytes.len() > 2 { bytes[2] as int } else { 0 };
        let n = bytes[0] as int * 65536 + b1 * 256 + b2;
        let c2 = if bytes.len() > 1 { base64_digit((n / 64) % 64) } else { '=' };
        let c3 = if bytes.len() > 2 { base64_digit(n % 64) } else { '=' };
        seq![base64_digit(n / 262144), base64_digit((n / 4096) % 64), c2, c3] + if bytes.len() > 3 {
            base64_standard(bytes.skip(3))
        } else {
            Seq::empty()
        }
    }
}

/// `base64::engine::general_purpose::STANDARD.encode(bytes)`: the bytes in
/// standard base64 with padding, as `base64_standard` states it.
#[verifier::external_body]
fn encode_base64(bytes: &[u8]) -> (r: String)
    ensures
        r@ == base64_standard(bytes@),
{
    base64::Engine::encode(&base64::engine::general_purpose::STANDARD, bytes)
}

/// The RPC call that adds a download to aria2.
#[derive(Debug, PartialEq, Eq)]
pub enum Aria2AddCall {
    /// `aria2.addTorrent` with the torrent file in base64.
    AddTorrent(String),
    /// `aria2.addUri` with this address.
    AddUri(String),
}

/// A torrent file is sent whole; a magnet link gets the trackers it lacks;
/// other sources are sent as they are.
pub fn aria2_add_call(
    source_type: SourceType,
    source: &str,
    trackers: &[String],
    torrent_bytes: &[u8],
) -> (r: Aria2AddCall)
    ensures
        source_type == SourceType::Torrent ==> (r matches Aria2AddCall::AddTorrent(b) && b@
            == base64_standard(torrent_bytes@)),
        source_type == SourceType::Magnet ==> (r matches Aria2AddCall::AddUri(u) && u@
            == spec_magnet_with_fallback(trackers@.map_values(|s: String| s@), source@)),
        (source_type == SourceType::Http || source_type == SourceType::Ftp) ==> (r matches Aria2AddCall::AddUri(u)
            && u@ == source@),
{
    match source_type {
        SourceType::Torrent => Aria2AddCall::AddTorrent(encode_base64(torrent_bytes)),
        SourceType::Magnet => Aria2AddCall::AddUri(magnet_with_fallback_trackers(trackers, source)),
        _ => Aria2AddCall::AddUri(string_of(&chars_of(source))),
    }
}


// ---------------------------------------------------------------------
// Looking up a magnet link
// ---------------------------------------------------------------------
/// How many times aria2 is asked for a magnet link's metadata: more when
/// aria2 has just been started.
pub fn magnet_resolve_attempts(started: bool) -> (r: usize)
    ensures
        r == (if started {
            180usize
        } else {
            60usize
        }),
{
    if started {
        180
    } else {
        60
    }
}

/// A magnet lookup in progress: the downloads it made aria2 start, to be
/// removed when it ends, and the last error aria2 reported.
pub struct MagnetLookup {
    cleanup: Vec<String>,
    last_error: Option<String>,
}

impl MagnetLookup {
    pub closed spec fn cleanup_view(&self) -> Seq<Seq<char>> {
        self.cleanup@.map_values(|g: String| g@)
    }

    pub closed spec fn last_error_view(&self) -> Option<Seq<char>> {
        string_opt_view(self.last_error)
    }

    /// A lookup of the download with this id.
    pub fn new(gid: &str) -> (r: Self)
        ensures
            r.cleanup_view() == seq![gid@],
            r.last_error_view() is None,
    {
        let r = MagnetLookup { cleanup: vec![string_of(&chars_of(gid))], last_error: None };
        proof {
            assert(r.cleanup_view() =~= seq![gid@]);
        }
        r
    }

    /// Keeps an error that aria2 reported, where it holds more than
    /// whitespace.
    pub fn note_error(&mut self, error_message: Option<&str>)
        ensures
            final(self).cleanup_view() == old(self).cleanup_view(),
            final(self).last_error_view() == (match error_message {
                Some(m) => if trim(m@).len() > 0 {
                    Some(m@)
                } else {
                    old(self).last_error_view()
                },
                None => old(self).last_error_view(),
            }),
    {
        match error_message {
            Some(m) => if trim_str(m).len() > 0 {
                self.last_error = Some(string_of(&chars_of(m)));
            },
            None => {},
        }
    }

    /// Marks a download for removal, once.
    pub fn keep(&mut self, gid: &str)
        ensures
            final(self).last_error_view() == old(self).last_error_view(),
            old(self).cleanup_view().contains(gid@) ==> final(self).cleanup_view() == old(self).cleanup_view(),
            !old(self).cleanup_view().contains(gid@) ==> final(self).cleanup_view() == old(
                self,
            ).cleanup_view().push(gid@),
    {
        let g = chars_of(gid);
        let mut i: usize = 0;
        let ghost cv = self.cleanup_view();
        while i < self.cleanup.len()
            invariant
                i <= self.cleanup@.len(),
                cv == self.cleanup@.map_values(|x: String| x@),
                g@ == gid@,
                forall|j: int| 0 <= j < i ==> cv[j] != gid@,
            decreases self.cleanup.len() - i,
        {
            if seq_eq(&chars_of(self.cleanup[i].as_str()), &g) {
                proof {
                    assert(cv[i as int] == gid@);
                }
                return;
            }
            i = i + 1;
        }
        self.cleanup.push(string_of(&g));
        proof {
            assert(self.cleanup_view() =~= cv.push(gid@));
        }
    }

    /// The downloads to remove, the latest first.
    pub fn cleanup_gids(&self) -> (r: Vec<String>)
        ensures
            r@.map_values(|g: String| g@) == self.cleanup_view().reverse(),
    {
        let ghost cv = self.cleanup_view();
        let mut r: Vec<String> = Vec::new();
        let mut k: usize = self.cleanup.len();
        while k > 0
            invariant
                k <= self.cleanup@.len(),
                cv == self.cleanup@.map_values(|x: String| x@),
                r@.map_values(|g: String| g@) == cv.skip(k as int).reverse(),
            decreases k,
        {
            k = k - 1;
            r.push(string_of(&chars_of(self.cleanup[k].as_str())));
            proof {
                assert(cv.skip(k as int).reverse() =~= cv.skip(k + 1).reverse().push(cv[k as int]));
            }
        }
        proof {
            assert(cv.skip(0) =~= cv);
        }
        r
    }

    /// The warning logged when the lookup gives up: the last error aria2
    /// reported, if any.
    pub fn give_up_warning(&self, of_files: bool) -> (r: Option<String>)
        ensures
            match self.last_error_view() {
                Some(e) => r matches Some(w) && w@ == (if of_files {
                    "magnet metadata files were not resolved: "@
                } else {
                    "magnet metadata name was not resolved: "@
                }) + e,
                None => r is None,
            },
    {
        match &self.last_error {
            Some(e) => {
                let mut w = if of_files {
                    chars_of("magnet metadata files were not resolved: ")
                } else {
                    chars_of("magnet metadata name was not resolved: ")
                };
                extend_vec(&mut w, &chars_of(e.as_str()));
                Some(string_of(&w))
            },
            None => None,
        }
    }
}

/// What the follower of a magnet download (the download aria2 starts once
/// the metadata is in) told, when it was asked.
pub enum FollowerAnswer {
    /// Its status: its id and its torrent name as given.
    Status(String, Option<String>),
    /// The top-level name of its files: its id and that name, if any.
    TopLevel(String, Option<String>),
    /// It could not be asked.
    Failed,
}

pub enum FollowerAnswerView {
    Status(Seq<char>, Option<Seq<char>>),
    TopLevel(Seq<char>, Option<Seq<char>>),
    Failed,
}

impl View for FollowerAnswer {
    type V = FollowerAnswerView;

    open spec fn view(&self) -> FollowerAnswerView {
        match self {
            FollowerAnswer::Status(g, n) => FollowerAnswerView::Status(g@, string_opt_view(*n)),
            FollowerAnswer::TopLevel(g, n) => FollowerAnswerView::TopLevel(g@, string_opt_view(*n)),
            FollowerAnswer::Failed => FollowerAnswerView::Failed,
        }
    }
}

/// The next step of a magnet lookup.
#[derive(Debug, PartialEq, Eq)]
pub enum MagnetPollAction {
    /// The download's own torrent name is known: use it.
    UseOwnName { name: String },
    /// Ask this follower for its status.
    AskFollower { gid: String },
    /// Ask this follower for the top-level name of its files.
    AskFollowerFiles { gid: String },
    /// Use this follower and the name it gave; it is removed when the lookup
    /// ends.
    UseFollower { gid: String, name: String },
    /// Nothing yet: wait and ask again.
    Retry,
    /// Nothing after the last attempt: give up.
    GiveUp,
}

pub enum MagnetPollActionView {
    UseOwnName(Seq<char>),
    AskFollower(Seq<char>),
    AskFollowerFiles(Seq<char>),
    UseFollower(Seq<char>, Seq<char>),
    Retry,
    GiveUp,
}

impl View for MagnetPollAction {
    type V = MagnetPollActionView;

    open spec fn view(&self) -> MagnetPollActionView {
        match self {
            MagnetPollAction::UseOwnName { name } => MagnetPollActionView::UseOwnName(name@),
            MagnetPollAction::AskFollower { gid } => MagnetPollActionView::AskFollower(gid@),
            MagnetPollAction::AskFollowerFiles { gid } => MagnetPollActionView::AskFollowerFiles(gid@),
            MagnetPollAction::UseFollower { gid, name } => MagnetPollActionView::UseFollower(gid@, name@),
            MagnetPollAction::Retry => MagnetPollActionView::Retry,
            MagnetPollAction::GiveUp => MagnetPollActionView::GiveUp,
        }
    }
}

pub open spec fn follower_view(f: Option<FollowerAnswer>) -> Option<FollowerAnswerView> {
    match f {
        Some(a) => Some(a@),
        None => None,
    }
}

/// One step of a magnet lookup, at the attempt with this number (counted
/// from 0) out of `attempts`. Without a follower's answer: the download's
/// own torrent name where aria2 gave one, else its first follower is asked,
/// else the attempt failed. With the follower's status: its torrent name,
/// else the top-level name of its files is asked. With that top-level
/// name: it is used; without one, or where the follower could not be
/// asked, the attempt failed. A failed attempt is retried, except the last,
/// after which the lookup gives up.
pub open spec fn spec_magnet_poll_step(
    status_name: Option<Seq<char>>,
    followed_by: Seq<Seq<char>>,
    follower: Option<FollowerAnswerView>,
    attempt: int,
    attempts: int,
) -> MagnetPollActionView {
    let failed = if attempt + 1 < attempts {
        MagnetPollActionView::Retry
    } else {
        MagnetPollActionView::GiveUp
    };
    match follower {
        None => match spec_bittorrent_name(status_name) {
            Some(n) => MagnetPollActionView::UseOwnName(n),
            None => if followed_by.len() > 0 {
                MagnetPollActionView::AskFollower(followed_by[0])
            } else {
                failed
            },
        },
        Some(FollowerAnswerView::Status(g, bt)) => match spec_bittorrent_name(bt) {
            Some(n) => MagnetPollActionView::UseFollower(g, n),
            None => MagnetPollActionView::AskFollowerFiles(g),
        },
        Some(FollowerAnswerView::TopLevel(g, Some(n))) => MagnetPollActionView::UseFollower(g, n),
        Some(FollowerAnswerView::TopLevel(_, None)) => failed,
        Some(FollowerAnswerView::Failed) => failed,
    }
}

/// The downloads to remove after a step: a follower that is used joins
/// them, once.
pub open spec fn spec_poll_cleanup(cleanup: Seq<Seq<char>>, r: MagnetPollActionView) -> Seq<Seq<char>> {
    match r {
        MagnetPollActionView::UseFollower(g, _) => if cleanup.contains(g) {
            cleanup
        } else {
            cleanup.push(g)
        },
        _ => cleanup,
    }
}

/// The error kept after a step: a failed attempt keeps the error aria2
/// reported for the download, where it holds more than whitespace.
pub open spec fn spec_poll_error(
    last_error: Option<Seq<char>>,
    status_error: Option<Seq<char>>,
    r: MagnetPollActionView,
) -> Option<Seq<char>> {
    match r {
        MagnetPollActionView::Retry | MagnetPollActionView::GiveUp => match status_error {
            Some(m) => if trim(m).len() > 0 {
                Some(m)
            } else {
                last_error
            },
            None => last_error,
        },
        _ => last_error,
    }
}

fn failed_poll(attempt: usize, attempts: usize) -> (r: MagnetPollAction)
    ensures
        r@ == (if attempt + 1 < attempts {
            MagnetPollActionView::Retry
        } else {
            MagnetPollActionView::GiveUp
        }),
{
    if attempts > 0 && attempt < attempts - 1 {
        MagnetPollAction::Retry
    } else {
        MagnetPollAction::GiveUp
    }
}

/// Decides the next step of a magnet lookup from the download's status and
/// what its follower told, and records it in the lookup.
pub fn magnet_poll_step(
    lookup: &mut MagnetLookup,
    status: &Aria2Status,
    follower: Option<FollowerAnswer>,
    attempt: usize,
    attempts: usize,
) -> (r: MagnetPollAction)
    ensures
        r@ == spec_magnet_poll_step(
            string_opt_view(status.bittorrent_name),
            status.followed_by@.map_values(|g: String| g@),
            follower_view(follower),
            attempt as int,
            attempts as int,
        ),
        final(lookup).cleanup_view() == spec_poll_cleanup(old(lookup).cleanup_view(), r@),
        final(lookup).last_error_view() == spec_poll_error(
            old(lookup).last_error_view(),
            string_opt_view(status.error_message),
            r@,
        ),
{
    let ghost fb = status.followed_by@.map_values(|g: String| g@);
    let r = match follower {
        None => match aria2_bittorrent_name(&status.bittorrent_name) {
            Some(name) => MagnetPollAction::UseOwnName { name },
            None => if status.followed_by.len() > 0 {
                proof {
                    assert(fb[0] == status.followed_by@[0]@);
                }
                MagnetPollAction::AskFollower { gid: string_of(&chars_of(status.followed_by[0].as_str())) }
            } else {
                failed_poll(attempt, attempts)
            },
        },
        Some(FollowerAnswer::Status(g, bt)) => match aria2_bittorrent_name(&bt) {
            Some(name) => MagnetPollAction::UseFollower { gid: g, name },
            None => MagnetPollAction::AskFollowerFiles { gid: g },
        },
        Some(FollowerAnswer::TopLevel(g, Some(name))) => MagnetPollAction::UseFollower { gid: g, name },
        Some(FollowerAnswer::TopLevel(_, None)) => failed_poll(attempt, attempts),
        Some(FollowerAnswer::Failed) => failed_poll(attempt, attempts),
    };
    match &r {
        MagnetPollAction::UseFollower { gid, .. } => {
            lookup.keep(gid.as_str());
        },
        MagnetPollAction::Retry | MagnetPollAction::GiveUp => {
            match &status.error_message {
                Some(m) => lookup.note_error(Some(m.as_str())),
                None => lookup.note_error(None),
            }
        },
        _ => {},
    }
    r
}

/// The aria2 program to start: the configured path trimmed, where that
/// leaves anything.
pub fn aria2_start_executable(executable_path: Option<&str>) -> (r: Option<String>)
    ensures
        string_opt_view(r) == nonblank(opt_view(executable_path)),
{
    match trimmed_nonblank(executable_path) {
        Some(t) => Some(string_of(&t)),
        None => None,
    }
}

/// The error when aria2's RPC does not answer after it was started.
pub fn aria2_startup_error(last_error: Option<&str>) -> (r: String)
    ensures
        r@ == "aria2 rpc was not ready after startup: "@ + (match last_error {
            Some(e) => e@,
            None => "unknown error"@,
        }),
{
    let mut m = chars_of("aria2 rpc was not ready after startup: ");
    match last_error {
        Some(e) => extend_vec(&mut m, &chars_of(e)),
        None => extend_vec(&mut m, &chars_of("unknown error")),
    }
    string_of(&m)
}

/// How aria2 ended when it stopped before its RPC answered: its exit
/// status, as text, and what it wrote to its error stream.
pub struct Aria2Exit {
    pub status: String,
    pub stderr: String,
}

/// What follows an attempt to reach a freshly started aria2.
#[derive(Debug, PartialEq, Eq)]
pub enum StartupStep {
    /// The RPC answers.
    Ready,
    /// Wait, then try again.
    Retry,
    /// Starting failed, with this error.
    Failed(String),
}

pub open spec fn startup_attempts() -> u32 {
    20
}

/// The error when aria2 ended before its RPC answered: what it wrote to its
/// error stream, trimmed, or else its exit status.
pub open spec fn spec_exit_error(exit: Aria2Exit) -> Seq<char> {
    if trim(exit.stderr@).len() > 0 {
        trim(exit.stderr@)
    } else {
        "aria2 exited before its RPC was ready: "@ + exit.status@
    }
}

/// The attempts to reach a freshly started aria2: how many failed, and the
/// last RPC error.
pub struct Aria2Startup {
    pub failed: u32,
    pub last_error: Option<String>,
}

impl Aria2Startup {
    pub fn new() -> (r: Self)
        ensures
            r.failed == 0,
            r.last_error is None,
    {
        Aria2Startup { failed: 0, last_error: None }
    }

    /// After an attempt: ready where the RPC answered; failed with aria2's
    /// own error where aria2 has ended; failed with the last RPC error
    /// after the twentieth attempt; else try again.
    pub fn after_attempt(&mut self, rpc_answered: bool, rpc_error: &str, exit: Option<Aria2Exit>) -> (r: StartupStep)
        requires
            old(self).failed < startup_attempts(),
        ensures
            rpc_answered ==> r == StartupStep::Ready,
            !rpc_answered ==> string_opt_view(final(self).last_error) == Some(rpc_error@),
            !rpc_answered && exit is Some ==> (r matches StartupStep::Failed(m) && m@ == spec_exit_error(
                exit->0,
            )),
            !rpc_answered && exit is None ==> final(self).failed == old(self).failed + 1,
            !rpc_answered && exit is None && final(self).failed < startup_attempts() ==> r == StartupStep::Retry,
            !rpc_answered && exit is None && final(self).failed == startup_attempts() ==> (r matches StartupStep::Failed(
                m,
            ) && m@ == "aria2 rpc was not ready after startup: "@ + rpc_error@),
    {
        if rpc_answered {
            return StartupStep::Ready;
        }
        self.last_error = Some(string_of(&chars_of(rpc_error)));
        match exit {
            Some(e) => {
                let t = trim_str(e.stderr.as_str());
                if t.len() > 0 {
                    return StartupStep::Failed(string_of(&t));
                }
                let mut m = chars_of("aria2 exited before its RPC was ready: ");
                extend_vec(&mut m, &chars_of(e.status.as_str()));
                return StartupStep::Failed(string_of(&m));
            },
            None => {},
        }
        self.failed = self.failed + 1;
        if self.failed < 20 {
            StartupStep::Retry
        } else {
            StartupStep::Failed(aria2_startup_error(Some(rpc_error)))
        }
    }
}

} // verus!
