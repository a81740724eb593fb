//! BitTorrent info hashes in magnet links: the `xt` parameter, its percent
//! encoding, and the hexadecimal and base32 forms of the hash.
use crate::text::{
    chars_of, eq_ic, eq_ignore_ascii_case, find_char, index_of, is_hex_digit, lower_seq,
    slice_vec, split_chars, split_seq, starts_with, string_of, to_ascii_lowercase, trim, trim_chars,
    trim_str, utf8_bytes, utf8_string, views,
};
use vstd::utf8::{decode_utf8, encode_utf8, valid_utf8};
use crate::torrent::{hex_lower, hex_lower_string};
use vstd::arithmetic::div_mod::{lemma_fundamental_div_mod, lemma_fundamental_div_mod_converse};
use vstd::arithmetic::power2::{lemma_pow2_adds, lemma_pow2_pos, pow2};
use vstd::prelude::*;

verus! {

/// The value of a base32 digit (RFC 4648 alphabet, either case).
pub open spec fn b32_val(c: char) -> Option<int> {
    if 'A' <= c <= 'Z' {
        Some(c as int - 'A' as int)
    } else if 'a' <= c <= 'z' {
        Some(c as int - 'a' as int)
    } else if '2' <= c <= '7' {
        Some(c as int - '2' as int + 26)
    } else {
        None
    }
}

pub open spec fn all_b32(s: Seq<char>) -> bool {
    forall|i: int| 0 <= i < s.len() ==> (#[trigger] b32_val(s[i])) is Some
}

/// The number whose base-32 digits, most significant first, are `s`.
pub open spec fn b32_num(s: Seq<char>) -> nat
    decreases s.len(),
{
    if s.len() == 0 {
        0
    } else {
        b32_num(s.drop_last()) * 32 + (b32_val(s.last())->0) as nat
    }
}

/// Byte `k` (from the most significant end) of the first whole bytes of a
/// `bits`-bit number.
pub open spec fn byte_at(n: nat, bits: int, k: int) -> int {
    (n / pow2((bits - 8 * k - 8) as nat)) as int % 256
}

/// The whole bytes that the bits of base32 text make, most significant first.
pub open spec fn b32_bytes(s: Seq<char>) -> Seq<u8> {
    Seq::new((5 * s.len() / 8) as nat, |k: int| byte_at(b32_num(s), (5 * s.len()) as int, k) as u8)
}

/// A base32 info hash: text whose 32 digits give 20 bytes, in lowercase
/// hexadecimal.
pub open spec fn b32_hash(s: Seq<char>) -> Option<Seq<char>> {
    if all_b32(s) && 5 * s.len() / 8 == 20 {
        Some(hex_lower(b32_bytes(s)))
    } else {
        None
    }
}

proof fn lemma_shift_in(a: nat, b: nat, v: nat)
    requires
        v < 32,
    ensures
        (a % pow2(b)) * 32 + v == (a * 32 + v) % pow2(b + 5),
        (a * 32 + v) / pow2(b + 5) == a / pow2(b),
{
    let p = pow2(b);
    lemma_pow2_pos(b);
    lemma_pow2_adds(b, 5);
    vstd::arithmetic::power2::lemma2_to64();
    lemma_fundamental_div_mod(a as int, p as int);
    let q = a / p;
    let r = a % p;
    assert(a * 32 + v == q * (p * 32) + (r * 32 + v)) by (nonlinear_arith)
        requires
            a == p * q + r,
    ;
    assert(r * 32 + v < p * 32) by (nonlinear_arith)
        requires
            r < p,
            v < 32,
    ;
    lemma_fundamental_div_mod_converse((a * 32 + v) as int, (p * 32) as int, q as int, (r * 32 + v) as int);
}

proof fn lemma_take_byte(m: nat, c: nat)
    requires
        c >= 8,
    ensures
        (m % pow2(c)) / pow2((c - 8) as nat) == (m / pow2((c - 8) as nat)) % 256,
        (m % pow2(c)) % pow2((c - 8) as nat) == m % pow2((c - 8) as nat),
        (m % pow2(c)) / pow2((c - 8) as nat) < 256,
{
    let a = pow2((c - 8) as nat);
    lemma_pow2_pos((c - 8) as nat);
    lemma_pow2_adds((c - 8) as nat, 8);
    vstd::arithmetic::power2::lemma2_to64();
    assert(pow2(c) == a * 256);
    lemma_fundamental_div_mod(m as int, (a * 256) as int);
    let big_q = m / (a * 256);
    let big_r = m % (a * 256);
    lemma_fundamental_div_mod(big_r as int, a as int);
    let hi = big_r / a;
    let lo = big_r % a;
    assert(hi < 256) by (nonlinear_arith)
        requires
            big_r == a * hi + lo,
            big_r < a * 256,
            0 <= lo,
            a > 0,
    ;
    assert(m == (big_q * 256 + hi) * a + lo) by (nonlinear_arith)
        requires
            m == (a * 256) * big_q + big_r,
            big_r == a * hi + lo,
    ;
    lemma_fundamental_div_mod_converse(m as int, a as int, (big_q * 256 + hi) as int, lo as int);
    lemma_fundamental_div_mod_converse((m / a) as int, 256, big_q as int, hi as int);
}

/// The bytes of the base32 text `value`, in lowercase hexadecimal, when the
/// text is 20 bytes' worth of base32 digits.
pub fn base32_btih_to_hex(value: &[char]) -> (r: Option<String>)
    ensures
        match r {
            Some(h) => b32_hash(value@) == Some(h@),
            None => b32_hash(value@) is None,
        },
{
    let mut bits: usize = 0;
    let mut buffer: u64 = 0;
    let mut bytes: Vec<u8> = Vec::new();
    let mut i: usize = 0;
    proof {
        vstd::arithmetic::power2::lemma2_to64();
    }
    while i < value.len()
        invariant
            i <= value@.len(),
            all_b32(value@.take(i as int)),
            bits < 8,
            bits + 8 * bytes@.len() == 5 * i,
            buffer == b32_num(value@.take(i as int)) % pow2(bits as nat),
            forall|k: int| 0 <= k < bytes@.len() ==> bytes@[k] == byte_at(b32_num(value@.take(i as int)), 5 * i, k),
        decreases value.len() - i,
    {
        let c = value[i];
        let v: u64 = if 'A' <= c && c <= 'Z' {
            (c as u32 - 'A' as u32) as u64
        } else if 'a' <= c && c <= 'z' {
            (c as u32 - 'a' as u32) as u64
        } else if '2' <= c && c <= '7' {
            (c as u32 - '2' as u32 + 26) as u64
        } else {
            proof {
                assert(value@.take(i + 1)[i as int] == c);
                assert(!all_b32(value@));
            }
            return None;
        };
        let ghost prev = value@.take(i as int);
        let ghost next = value@.take(i + 1);
        proof {
            assert(next.drop_last() =~= prev);
            assert(b32_val(c) == Some(v as int));
            assert(b32_num(next) == b32_num(prev) * 32 + v);
            assert(all_b32(next)) by {
                assert forall|j: int| 0 <= j < next.len() implies (#[trigger] b32_val(next[j])) is Some by {
                    if j < i {
                        assert(next[j] == prev[j]);
                    }
                }
            }
            lemma_shift_in(b32_num(prev), bits as nat, v as nat);
            lemma_pow2_pos(bits as nat);
            assert forall|k: int| 0 <= k < bytes@.len() implies bytes@[k] == byte_at(b32_num(next), 5 * (i + 1), k) by {
                let e = (5 * i - 8 * k - 8) as nat;
                lemma_shift_in(b32_num(prev), e, v as nat);
                assert((5 * (i + 1) - 8 * k - 8) as nat == e + 5);
            }
            assert(buffer < pow2(bits as nat));
            vstd::arithmetic::power2::lemma2_to64();
            if bits < 7 {
                vstd::arithmetic::power2::lemma_pow2_strictly_increases(bits as nat, 7);
            }
            assert(buffer * 32 + v < 4096) by (nonlinear_arith)
                requires
                    buffer < pow2(bits as nat),
                    pow2(bits as nat) <= 128,
                    v < 32,
            ;
        }
        buffer = buffer * 32 + v;
        bits = bits + 5;
        if bits >= 8 {
            bits = bits - 8;
            proof {
                lemma_take_byte(b32_num(next), (bits + 8) as nat);
                lemma_pow2_pos(bits as nat);
            }
            let byte = (buffer / pow2_u64(bits)) as u8;
            let ghost old_bytes = bytes@;
            bytes.push(byte);
            buffer = buffer % pow2_u64(bits);
            proof {
                assert(bytes@.len() == old_bytes.len() + 1);
                assert(bytes@[old_bytes.len() as int] == byte_at(b32_num(next), 5 * (i + 1), old_bytes.len() as int));
            }
        }
        i = i + 1;
    }
    proof {
        assert(value@.take(i as int) =~= value@);
    }
    if bytes.len() != 20 {
        return None;
    }
    proof {
        assert(bytes@ =~= b32_bytes(value@));
    }
    Some(hex_lower_string(&bytes))
}

/// `2^e` for a small exponent.
fn pow2_u64(e: usize) -> (r: u64)
    requires
        e < 13,
    ensures
        r == pow2(e as nat),
{
    proof {
        vstd::arithmetic::power2::lemma2_to64();
    }
    let mut r: u64 = 1;
    let mut k: usize = 0;
    while k < e
        invariant
            k <= e < 13,
            r == pow2(k as nat),
        decreases e - k,
    {
        proof {
            vstd::arithmetic::power2::lemma_pow2_unfold((k + 1) as nat);
            vstd::arithmetic::power2::lemma_pow2_strictly_increases(k as nat, 12);
            vstd::arithmetic::power2::lemma2_to64();
        }
        r = r * 2;
        k = k + 1;
    }
    r
}

/// The value of a hexadecimal digit byte.
pub open spec fn hexv(x: u8) -> Option<u8> {
    if 48 <= x <= 57 {
        Some((x - 48) as u8)
    } else if 65 <= x <= 70 {
        Some((x - 55) as u8)
    } else if 97 <= x <= 102 {
        Some((x - 87) as u8)
    } else {
        None
    }
}

/// The value of a hexadecimal digit byte.
pub fn hex_value(byte: u8) -> (r: Option<u8>)
    ensures
        r == hexv(byte),
{
    if 48u8 <= byte && byte <= 57u8 {
        Some(byte - 48u8)
    } else if 65u8 <= byte && byte <= 70u8 {
        Some(byte - 55u8)
    } else if 97u8 <= byte && byte <= 102u8 {
        Some(byte - 87u8)
    } else {
        None
    }
}

/// Percent decoding: each `%` followed by two hexadecimal digits stands for
/// the byte they spell; any other `%` makes the text invalid.
pub open spec fn pct_decode(b: Seq<u8>) -> Option<Seq<u8>>
    decreases b.len(),
{
    if b.len() == 0 {
        Some(Seq::empty())
    } else if b[0] == 37u8 {
        if b.len() >= 3 && hexv(b[1]) is Some && hexv(b[2]) is Some {
            match pct_decode(b.skip(3)) {
                Some(r) => Some(seq![(hexv(b[1])->0 * 16 + hexv(b[2])->0) as u8] + r),
                None => None,
            }
        } else {
            None
        }
    } else {
        match pct_decode(b.skip(1)) {
            Some(r) => Some(seq![b[0]] + r),
            None => None,
        }
    }
}

/// The text that a percent-encoded query value stands for, when its bytes
/// decode and form valid UTF-8.
pub open spec fn spec_percent_decode(v: Seq<char>) -> Option<Seq<char>> {
    match pct_decode(encode_utf8(v)) {
        Some(bytes) => if valid_utf8(bytes) {
            Some(decode_utf8(bytes))
        } else {
            None
        },
        None => None,
    }
}

/// Decodes the percent escapes of a query value.
pub fn percent_decode_query_value(value: &[char]) -> (r: Option<String>)
    ensures
        match r {
            Some(s) => spec_percent_decode(value@) == Some(s@),
            None => spec_percent_decode(value@) is None,
        },
{
    let bytes = utf8_bytes(value);
    let ghost b = bytes@;
    let mut decoded: Vec<u8> = Vec::new();
    let mut index: usize = 0;
    proof {
        assert(b.skip(0) =~= b);
        assert(decoded@ + Seq::<u8>::empty() =~= decoded@);
    }
    while index < bytes.len()
        invariant
            b == bytes@,
            b == encode_utf8(value@),
            index <= bytes@.len(),
            pct_decode(b) == (match pct_decode(b.skip(index as int)) {
                Some(r) => Some(decoded@ + r),
                None => None,
            }),
        decreases bytes.len() - index,
    {
        let ghost rest = b.skip(index as int);
        if bytes[index] == 37u8 {
            if bytes.len() - index < 3 {
                proof {
                    assert(rest[0] == 37u8);
                }
                return None;
            }
            let high = match hex_value(bytes[index + 1]) {
                Some(h) => h,
                None => return None,
            };
            let low = match hex_value(bytes[index + 2]) {
                Some(l) => l,
                None => return None,
            };
            proof {
                assert(rest.skip(3) =~= b.skip(index + 3));
                assert(rest[1] == bytes@[index + 1]);
                assert(rest[2] == bytes@[index + 2]);
                match pct_decode(b.skip(index + 3)) {
                    Some(r) => {
                        assert(decoded@.push((high * 16 + low) as u8) + r =~= decoded@ + (seq![(high * 16 + low) as u8] + r));
                    },
                    None => {},
                }
            }
            decoded.push(high * 16 + low);
            index = index + 3;
        } else {
            proof {
                assert(rest.skip(1) =~= b.skip(index + 1));
                match pct_decode(b.skip(index + 1)) {
                    Some(r) => {
                        assert(decoded@.push(bytes@[index as int]) + r =~= decoded@ + (seq![bytes@[index as int]] + r));
                    },
                    None => {},
                }
            }
            decoded.push(bytes[index]);
            index = index + 1;
        }
    }
    proof {
        assert(b.skip(index as int).len() == 0);
        assert(decoded@ + Seq::<u8>::empty() =~= decoded@);
    }
    let text = utf8_string(decoded);
    text
}

pub open spec fn btih_prefix() -> Seq<char> {
    seq!['u', 'r', 'n', ':', 'b', 't', 'i', 'h', ':']
}

/// The text after a leading `urn:btih:`, in any case.
pub open spec fn spec_strip_btih(v: Seq<char>) -> Option<Seq<char>> {
    if v.len() >= 9 && eq_ic(v.take(9), btih_prefix()) {
        Some(v.skip(9))
    } else {
        None
    }
}

/// The text after a leading `urn:btih:`, in any case.
pub fn strip_btih_prefix(value: &[char]) -> (r: Option<Vec<char>>)
    ensures
        match r {
            Some(v) => spec_strip_btih(value@) == Some(v@),
            None => spec_strip_btih(value@) is None,
        },
{
    let prefix = chars_of("urn:btih:");
    proof {
        reveal_strlit("urn:btih:");
        assert(prefix@ =~= btih_prefix());
    }
    if value.len() < 9 {
        return None;
    }
    let head = slice_vec(value, 0, 9);
    if !eq_ignore_ascii_case(&head, &prefix) {
        return None;
    }
    Some(slice_vec(value, 9, value.len()))
}

pub open spec fn is_hex40(t: Seq<char>) -> bool {
    t.len() == 40 && forall|i: int| 0 <= i < t.len() ==> is_hex_digit(#[trigger] t[i])
}

/// A BitTorrent info hash in canonical form: 40 hexadecimal digits in
/// lowercase, or 32 base32 digits turned into hexadecimal.
pub open spec fn spec_normalize_btih(v: Seq<char>) -> Option<Seq<char>> {
    let t = trim(v);
    if is_hex40(t) {
        Some(lower_seq(t))
    } else if t.len() == 32 {
        b32_hash(t)
    } else {
        None
    }
}

/// The canonical form of an info hash: lowercase hexadecimal.
pub fn normalize_btih_hash(value: &[char]) -> (r: Option<String>)
    ensures
        match r {
            Some(h) => spec_normalize_btih(value@) == Some(h@),
            None => spec_normalize_btih(value@) is None,
        },
{
    let t = trim_chars(value);
    if t.len() == 40 {
        let mut i: usize = 0;
        let mut all_hex = true;
        while i < t.len()
            invariant
                i <= t@.len(),
                all_hex == (forall|j: int| 0 <= j < i ==> is_hex_digit(#[trigger] t@[j])),
            decreases t.len() - i,
        {
            let c = t[i];
            let h = ('0' <= c && c <= '9') || ('a' <= c && c <= 'f') || ('A' <= c && c <= 'F');
            proof {
                if all_hex && h {
                    assert forall|j: int| 0 <= j < i + 1 implies is_hex_digit(#[trigger] t@[j]) by {
                        if j == i {
                            assert(t@[j] == c);
                        }
                    }
                }
                if !h {
                    assert(!is_hex_digit(t@[i as int]));
                }
            }
            all_hex = all_hex && h;
            i = i + 1;
        }
        if all_hex {
            let lower = to_ascii_lowercase(&t);
            return Some(string_of(&lower));
        }
    }
    if t.len() == 32 {
        return base32_btih_to_hex(&t);
    }
    None
}

pub open spec fn xt_key() -> Seq<char> {
    seq!['x', 't']
}

/// The info hash that one `key=value` part of a magnet query gives: the
/// part's key is `xt` in any case, and its decoded value is a `urn:btih:`
/// name of a valid hash.
pub open spec fn spec_xt_hash(part: Seq<char>) -> Option<Seq<char>> {
    match index_of(part, '=') {
        None => None,
        Some(e) => if !eq_ic(part.take(e), xt_key()) {
            None
        } else {
            match spec_percent_decode(part.skip(e + 1)) {
                None => None,
                Some(text) => match spec_strip_btih(text) {
                    None => None,
                    Some(h) => spec_normalize_btih(h),
                },
            }
        },
    }
}

/// The hash of the first part that gives one.
pub open spec fn first_xt_hash(parts: Seq<Seq<char>>) -> Option<Seq<char>>
    decreases parts.len(),
{
    if parts.len() == 0 {
        None
    } else {
        match spec_xt_hash(parts[0]) {
            Some(h) => Some(h),
            None => first_xt_hash(parts.drop_first()),
        }
    }
}

/// The info hash of a magnet link: the first `xt` parameter of its query
/// that names one.
pub open spec fn spec_magnet_info_hash(source: Seq<char>) -> Option<Seq<char>> {
    let t = trim(source);
    match index_of(t, '?') {
        None => None,
        Some(q) => first_xt_hash(split_seq(t.skip(q + 1), false, seq!['&'])),
    }
}

fn xt_part_hash(part: &[char]) -> (r: Option<String>)
    ensures
        match r {
            Some(h) => spec_xt_hash(part@) == Some(h@),
            None => spec_xt_hash(part@) is None,
        },
{
    let e = match find_char(part, '=') {
        Some(e) => e,
        None => return None,
    };
    let key = slice_vec(part, 0, e);
    let xt = chars_of("xt");
    proof {
        reveal_strlit("xt");
        assert(xt@ =~= xt_key());
    }
    if !eq_ignore_ascii_case(&key, &xt) {
        return None;
    }
    let n = part.len();
    let value = slice_vec(part, e + 1, n);
    let text = match percent_decode_query_value(&value) {
        Some(t) => t,
        None => return None,
    };
    let text = chars_of(text.as_str());
    let hash = match strip_btih_prefix(&text) {
        Some(h) => h,
        None => return None,
    };
    normalize_btih_hash(&hash)
}

/// The info hash named by a magnet link, in lowercase hexadecimal.
pub fn parse_magnet_info_hash(source: &str) -> (r: Option<String>)
    ensures
        match r {
            Some(h) => spec_magnet_info_hash(source@) == Some(h@),
            None => spec_magnet_info_hash(source@) is None,
        },
{
    let t = trim_str(source);
    let q = match find_char(&t, '?') {
        Some(q) => q,
        None => return None,
    };
    let query = slice_vec(&t, q + 1, t.len());
    let amp: Vec<char> = vec!['&'];
    let parts = split_chars(&query, false, &amp);
    let ghost ps = views(parts@);
    proof {
        assert(amp@ =~= seq!['&']);
        assert(query@ =~= t@.skip(q + 1));
        assert(ps.skip(0) =~= ps);
        assert(spec_magnet_info_hash(source@) == first_xt_hash(ps));
    }
    let mut i: usize = 0;
    while i < parts.len()
        invariant
            i <= parts@.len(),
            ps == views(parts@),
            ps.len() == parts@.len(),
            first_xt_hash(ps) == first_xt_hash(ps.skip(i as int)),
            spec_magnet_info_hash(source@) == first_xt_hash(ps),
        decreases parts.len() - i,
    {
        proof {
            assert(ps.skip(i as int)[0] == parts@[i as int]@);
            assert(ps.skip(i as int).drop_first() =~= ps.skip(i + 1));
        }
        match xt_part_hash(&parts[i]) {
            Some(h) => {
                return Some(h);
            },
            None => {},
        }
        i = i + 1;
    }
    None
}

} // verus!
