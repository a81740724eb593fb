//! Character-level text primitives shared by the parsers of this crate.
//!
//! Text is handled as `Vec<char>` in executable code and as `Seq<char>` in
//! specifications; `chars_of` and `string_of` move between `&str`/`String`
//! and that representation.
use vstd::prelude::*;
use vstd::std_specs::iter::IteratorSpec;
use vstd::utf8::{decode_utf8, valid_utf8};

verus! {

/// `String::push` appends one character to the string.
pub assume_specification[ String::push ](s: &mut String, ch: char)
    ensures
        final(s)@ == old(s)@.push(ch),
;

/// The characters of a string slice, in order.
pub fn chars_of(s: &str) -> (v: Vec<char>)
    ensures
        v@ == s@,
{
    let mut v: Vec<char> = Vec::new();
    proof {
        vstd::string::axiom_spec_iter(s);
    }
    for c in it: s.chars()
        invariant
            v@ == it.seq().take(it.index() as int),
            it.seq() == s@,
    {
        v.push(c);
    }
    v
}

/// A `String` holding exactly the given characters.
pub fn string_of(v: &[char]) -> (s: String)
    ensures
        s@ == v@,
{
    let mut s = String::new();
    let mut i: usize = 0;
    while i < v.len()
        invariant
            i <= v.len(),
            s@ == v@.subrange(0, i as int),
        decreases v.len() - i,
    {
        s.push(v[i]);
        i = i + 1;
    }
    s
}

/// The elements of `v` from index `a` up to (not including) `b`.
pub fn slice_vec<T: Copy>(v: &[T], a: usize, b: usize) -> (r: Vec<T>)
    requires
        a <= b <= v@.len(),
    ensures
        r@ == v@.subrange(a as int, b as int),
{
    let mut r: Vec<T> = Vec::new();
    let mut i = a;
    while i < b
        invariant
            a <= i <= b <= v@.len(),
            r@ == v@.subrange(a as int, i as int),
        decreases b - i,
    {
        r.push(v[i]);
        i = i + 1;
    }
    r
}

/// Appends the elements of `w` to `v`.
pub fn extend_vec<T: Copy>(v: &mut Vec<T>, w: &[T])
    ensures
        final(v)@ == old(v)@ + w@,
{
    let mut i: usize = 0;
    while i < w.len()
        invariant
            i <= w.len(),
            v@ == old(v)@ + w@.subrange(0, i as int),
        decreases w.len() - i,
    {
        v.push(w[i]);
        i = i + 1;
    }
}

/// Unicode `White_Space`, the set that `char::is_whitespace` tests.
pub open spec fn is_ws(c: char) -> bool {
    let u = c as u32;
    ||| 0x9 <= u <= 0xD
    ||| u == 0x20
    ||| u == 0x85
    ||| u == 0xA0
    ||| u == 0x1680
    ||| 0x2000 <= u <= 0x200A
    ||| u == 0x2028
    ||| u == 0x2029
    ||| u == 0x202F
    ||| u == 0x205F
    ||| u == 0x3000
}

pub fn is_whitespace(c: char) -> (b: bool)
    ensures
        b == is_ws(c),
{
    let u = c as u32;
    (0x9 <= u && u <= 0xD) || u == 0x20 || u == 0x85 || u == 0xA0 || u == 0x1680 || (0x2000 <= u
        && u <= 0x200A) || u == 0x2028 || u == 0x2029 || u == 0x202F || u == 0x205F || u == 0x3000
}

/// Unicode general category `Cc`, the set that `char::is_control` tests.
pub open spec fn is_ctrl(c: char) -> bool {
    let u = c as u32;
    u <= 0x1F || (0x7F <= u <= 0x9F)
}

pub fn is_control(c: char) -> (b: bool)
    ensures
        b == is_ctrl(c),
{
    let u = c as u32;
    u <= 0x1F || (0x7F <= u && u <= 0x9F)
}

pub open spec fn is_digit(c: char) -> bool {
    '0' <= c <= '9'
}

pub open spec fn is_hex_digit(c: char) -> bool {
    ('0' <= c <= '9') || ('a' <= c <= 'f') || ('A' <= c <= 'F')
}

/// ASCII lower-casing of one character (`char::to_ascii_lowercase`).
pub open spec fn lower(c: char) -> char {
    if 'A' <= c <= 'Z' {
        ((c as u32) + 32) as char
    } else {
        c
    }
}

pub fn to_lower(c: char) -> (r: char)
    ensures
        r == lower(c),
{
    if 'A' <= c && c <= 'Z' {
        let u = (c as u32) + 32;
        proof {
            assert(0x61 <= u <= 0x7A);
        }
        char_from_ascii(u)
    } else {
        c
    }
}

/// The character with the given ASCII code.
pub fn char_from_ascii(u: u32) -> (c: char)
    requires
        u < 128,
    ensures
        c == u as char,
        c as u32 == u,
{
    let b = u as u8;
    b as char
}

pub open spec fn lower_seq(s: Seq<char>) -> Seq<char> {
    Seq::new(s.len(), |i: int| lower(s[i]))
}

/// `str::to_ascii_lowercase`.
pub fn to_ascii_lowercase(v: &[char]) -> (r: Vec<char>)
    ensures
        r@ == lower_seq(v@),
{
    let mut r: Vec<char> = Vec::new();
    let mut i: usize = 0;
    while i < v.len()
        invariant
            i <= v.len(),
            r@ =~= lower_seq(v@.subrange(0, i as int)),
        decreases v.len() - i,
    {
        let c = to_lower(v[i]);
        r.push(c);
        i = i + 1;
    }
    r
}

/// `str::eq_ignore_ascii_case`.
pub open spec fn eq_ic(a: Seq<char>, b: Seq<char>) -> bool {
    lower_seq(a) == lower_seq(b)
}

pub fn eq_ignore_ascii_case(a: &[char], b: &[char]) -> (r: bool)
    ensures
        r == eq_ic(a@, b@),
{
    if a.len() != b.len() {
        proof {
            assert(lower_seq(a@).len() != lower_seq(b@).len());
        }
        return false;
    }
    let mut i: usize = 0;
    while i < a.len()
        invariant
            a.len() == b.len(),
            i <= a.len(),
            forall|j: int| 0 <= j < i ==> lower(a@[j]) == lower(b@[j]),
        decreases a.len() - i,
    {
        if to_lower(a[i]) != to_lower(b[i]) {
            proof {
                assert(lower_seq(a@)[i as int] != lower_seq(b@)[i as int]);
            }
            return false;
        }
        i = i + 1;
    }
    proof {
        assert(lower_seq(a@) =~= lower_seq(b@));
    }
    true
}

/// Exact equality of two character sequences.
pub fn seq_eq(a: &[char], b: &[char]) -> (r: bool)
    ensures
        r == (a@ == b@),
{
    if a.len() != b.len() {
        return false;
    }
    let mut i: usize = 0;
    while i < a.len()
        invariant
            a.len() == b.len(),
            i <= a.len(),
            forall|j: int| 0 <= j < i ==> a@[j] == b@[j],
        decreases a.len() - i,
    {
        if a[i] != b[i] {
            return false;
        }
        i = i + 1;
    }
    proof {
        assert(a@ =~= b@);
    }
    true
}

/// Exact equality of two byte sequences.
pub fn bytes_eq(a: &[u8], b: &[u8]) -> (r: bool)
    ensures
        r == (a@ == b@),
{
    if a.len() != b.len() {
        return false;
    }
    let mut i: usize = 0;
    while i < a.len()
        invariant
            a.len() == b.len(),
            i <= a.len(),
            forall|j: int| 0 <= j < i ==> a@[j] == b@[j],
        decreases a.len() - i,
    {
        if a[i] != b[i] {
            return false;
        }
        i = i + 1;
    }
    proof {
        assert(a@ =~= b@);
    }
    true
}

pub open spec fn starts_with(s: Seq<char>, p: Seq<char>) -> bool {
    p.len() <= s.len() && s.take(p.len() as int) == p
}

pub open spec fn ends_with(s: Seq<char>, p: Seq<char>) -> bool {
    p.len() <= s.len() && s.skip(s.len() - p.len()) == p
}

pub fn has_prefix(s: &[char], p: &[char]) -> (r: bool)
    ensures
        r == starts_with(s@, p@),
{
    if p.len() > s.len() {
        return false;
    }
    let mut i: usize = 0;
    while i < p.len()
        invariant
            p.len() <= s.len(),
            i <= p.len(),
            forall|j: int| 0 <= j < i ==> s@[j] == p@[j],
        decreases p.len() - i,
    {
        if s[i] != p[i] {
            proof {
                assert(s@.take(p.len() as int)[i as int] != p@[i as int]);
            }
            return false;
        }
        i = i + 1;
    }
    proof {
        assert(s@.take(p.len() as int) =~= p@);
    }
    true
}

pub fn has_suffix(s: &[char], p: &[char]) -> (r: bool)
    ensures
        r == ends_with(s@, p@),
{
    if p.len() > s.len() {
        return false;
    }
    let off = s.len() - p.len();
    let mut i: usize = 0;
    while i < p.len()
        invariant
            p.len() <= s.len(),
            off == s.len() - p.len(),
            i <= p.len(),
            forall|j: int| 0 <= j < i ==> s@[off + j] == p@[j],
        decreases p.len() - i,
    {
        if s[off + i] != p[i] {
            proof {
                assert(s@.skip(off as int)[i as int] != p@[i as int]);
            }
            return false;
        }
        i = i + 1;
    }
    proof {
        assert(s@.skip(off as int) =~= p@);
    }
    true
}

/// Whether `p` occurs in `s` starting at index `i`.
pub open spec fn occurs_at(s: Seq<char>, p: Seq<char>, i: int) -> bool {
    0 <= i && i + p.len() <= s.len() && s.subrange(i, i + p.len()) == p
}

pub open spec fn contains_seq(s: Seq<char>, p: Seq<char>) -> bool {
    exists|i: int| occurs_at(s, p, i)
}

/// Whether `p` occurs at index `i` of `s`, checked in executable code.
pub fn matches_at(s: &[char], p: &[char], i: usize) -> (r: bool)
    requires
        i <= s.len(),
    ensures
        r == occurs_at(s@, p@, i as int),
{
    if p.len() > s.len() - i {
        return false;
    }
    let mut k: usize = 0;
    while k < p.len()
        invariant
            i <= s.len(),
            p.len() <= s.len() - i,
            k <= p.len(),
            forall|j: int| 0 <= j < k ==> s@[i + j] == p@[j],
        decreases p.len() - k,
    {
        if s[i + k] != p[k] {
            proof {
                assert(s@.subrange(i as int, i + p.len())[k as int] != p@[k as int]);
            }
            return false;
        }
        k = k + 1;
    }
    proof {
        assert(s@.subrange(i as int, i + p.len()) =~= p@);
    }
    true
}

/// `str::contains` with a string pattern.
pub fn contains(s: &[char], p: &[char]) -> (r: bool)
    ensures
        r == contains_seq(s@, p@),
{
    let mut i: usize = 0;
    loop
        invariant
            i <= s.len(),
            forall|j: int| 0 <= j < i ==> !occurs_at(s@, p@, j),
        ensures
            forall|j: int| 0 <= j <= s.len() ==> !occurs_at(s@, p@, j),
        decreases s.len() - i,
    {
        if matches_at(s, p, i) {
            return true;
        }
        if i == s.len() {
            break;
        }
        i = i + 1;
    }
    proof {
        assert forall|j: int| !occurs_at(s@, p@, j) by {
            if 0 <= j && j <= s.len() {
            }
        }
    }
    false
}

pub fn contains_char(s: &[char], c: char) -> (r: bool)
    ensures
        r == s@.contains(c),
{
    let mut i: usize = 0;
    while i < s.len()
        invariant
            i <= s.len(),
            forall|j: int| 0 <= j < i ==> s@[j] != c,
        decreases s.len() - i,
    {
        if s[i] == c {
            return true;
        }
        i = i + 1;
    }
    false
}

// ---------------------------------------------------------------------
// Trimming
// ---------------------------------------------------------------------
/// `str::trim_start`.
pub open spec fn trim_start(s: Seq<char>) -> Seq<char>
    decreases s.len(),
{
    if s.len() > 0 && is_ws(s[0]) {
        trim_start(s.drop_first())
    } else {
        s
    }
}

/// `str::trim_end`.
pub open spec fn trim_end(s: Seq<char>) -> Seq<char>
    decreases s.len(),
{
    if s.len() > 0 && is_ws(s.last()) {
        trim_end(s.drop_last())
    } else {
        s
    }
}

/// `str::trim`.
pub open spec fn trim(s: Seq<char>) -> Seq<char> {
    trim_end(trim_start(s))
}

pub fn trim_start_chars(v: &[char]) -> (r: Vec<char>)
    ensures
        r@ == trim_start(v@),
{
    let mut i: usize = 0;
    proof {
        assert(v@.skip(0) =~= v@);
    }
    while i < v.len() && is_whitespace(v[i])
        invariant
            i <= v.len(),
            trim_start(v@) == trim_start(v@.skip(i as int)),
        decreases v.len() - i,
    {
        proof {
            assert(v@.skip(i as int).drop_first() =~= v@.skip(i + 1));
        }
        i = i + 1;
    }
    slice_vec(v, i, v.len())
}

pub fn trim_end_chars(v: &[char]) -> (r: Vec<char>)
    ensures
        r@ == trim_end(v@),
{
    let mut j: usize = v.len();
    proof {
        assert(v@.subrange(0, j as int) =~= v@);
    }
    while j > 0 && is_whitespace(v[j - 1])
        invariant
            j <= v.len(),
            trim_end(v@) == trim_end(v@.subrange(0, j as int)),
        decreases j,
    {
        proof {
            assert(v@.subrange(0, j as int).drop_last() =~= v@.subrange(0, j - 1));
        }
        j = j - 1;
    }
    slice_vec(v, 0, j)
}

pub fn trim_chars(v: &[char]) -> (r: Vec<char>)
    ensures
        r@ == trim(v@),
{
    let s = trim_start_chars(v);
    trim_end_chars(&s)
}

/// `str::trim` on a string slice.
pub fn trim_str(s: &str) -> (r: Vec<char>)
    ensures
        r@ == trim(s@),
{
    let v = chars_of(s);
    trim_chars(&v)
}

/// Removes every leading occurrence of `c` (`trim_start_matches(c)`).
pub open spec fn trim_start_char(s: Seq<char>, c: char) -> Seq<char>
    decreases s.len(),
{
    if s.len() > 0 && s[0] == c {
        trim_start_char(s.drop_first(), c)
    } else {
        s
    }
}

/// Removes every trailing character that is in `cs` (`trim_end_matches([..])`).
pub open spec fn trim_end_any(s: Seq<char>, cs: Seq<char>) -> Seq<char>
    decreases s.len(),
{
    if s.len() > 0 && cs.contains(s.last()) {
        trim_end_any(s.drop_last(), cs)
    } else {
        s
    }
}

/// Removes every leading and trailing character that is in `cs`
/// (`trim_matches([..])`).
pub open spec fn trim_start_any(s: Seq<char>, cs: Seq<char>) -> Seq<char>
    decreases s.len(),
{
    if s.len() > 0 && cs.contains(s[0]) {
        trim_start_any(s.drop_first(), cs)
    } else {
        s
    }
}

pub open spec fn trim_any(s: Seq<char>, cs: Seq<char>) -> Seq<char> {
    trim_end_any(trim_start_any(s, cs), cs)
}

pub fn trim_start_any_chars(v: &[char], cs: &[char]) -> (r: Vec<char>)
    ensures
        r@ == trim_start_any(v@, cs@),
{
    let mut i: usize = 0;
    proof {
        assert(v@.skip(0) =~= v@);
    }
    while i < v.len() && contains_char(cs, v[i])
        invariant
            i <= v.len(),
            trim_start_any(v@, cs@) == trim_start_any(v@.skip(i as int), cs@),
        decreases v.len() - i,
    {
        proof {
            assert(v@.skip(i as int).drop_first() =~= v@.skip(i + 1));
        }
        i = i + 1;
    }
    slice_vec(v, i, v.len())
}

pub fn trim_end_any_chars(v: &[char], cs: &[char]) -> (r: Vec<char>)
    ensures
        r@ == trim_end_any(v@, cs@),
{
    let mut j: usize = v.len();
    proof {
        assert(v@.subrange(0, j as int) =~= v@);
    }
    while j > 0 && contains_char(cs, v[j - 1])
        invariant
            j <= v.len(),
            trim_end_any(v@, cs@) == trim_end_any(v@.subrange(0, j as int), cs@),
        decreases j,
    {
        proof {
            assert(v@.subrange(0, j as int).drop_last() =~= v@.subrange(0, j - 1));
        }
        j = j - 1;
    }
    slice_vec(v, 0, j)
}

pub fn trim_any_chars(v: &[char], cs: &[char]) -> (r: Vec<char>)
    ensures
        r@ == trim_any(v@, cs@),
{
    let s = trim_start_any_chars(v, cs);
    trim_end_any_chars(&s, cs)
}

// ---------------------------------------------------------------------
// Splitting
// ---------------------------------------------------------------------
/// A set of separator characters: every whitespace character when `ws`
/// holds, and every character listed in `chars`.
pub open spec fn is_sep(c: char, ws: bool, chars: Seq<char>) -> bool {
    (ws && is_ws(c)) || chars.contains(c)
}

/// `str::split` with a separator set: the pieces between separators, empty
/// pieces included, so there is always at least one piece.
pub open spec fn split_seq(s: Seq<char>, ws: bool, chars: Seq<char>) -> Seq<Seq<char>>
    decreases s.len(),
{
    if s.len() == 0 {
        seq![Seq::empty()]
    } else {
        let r = split_seq(s.drop_last(), ws, chars);
        if is_sep(s.last(), ws, chars) {
            r.push(Seq::empty())
        } else {
            r.update(r.len() - 1, r.last().push(s.last()))
        }
    }
}

pub proof fn lemma_split_nonempty(s: Seq<char>, ws: bool, chars: Seq<char>)
    ensures
        split_seq(s, ws, chars).len() >= 1,
    decreases s.len(),
{
    if s.len() > 0 {
        lemma_split_nonempty(s.drop_last(), ws, chars);
    }
}

pub open spec fn views(v: Seq<Vec<char>>) -> Seq<Seq<char>> {
    v.map_values(|x: Vec<char>| x@)
}

pub fn is_separator(c: char, ws: bool, chars: &[char]) -> (b: bool)
    ensures
        b == is_sep(c, ws, chars@),
{
    (ws && is_whitespace(c)) || contains_char(chars, c)
}

pub fn split_chars(v: &[char], ws: bool, chars: &[char]) -> (r: Vec<Vec<char>>)
    ensures
        views(r@) == split_seq(v@, ws, chars@),
{
    let mut done: Vec<Vec<char>> = Vec::new();
    let mut cur: Vec<char> = Vec::new();
    let mut i: usize = 0;
    proof {
        assert(v@.take(0) =~= Seq::<char>::empty());
        assert(views(done@).push(cur@) =~= split_seq(v@.take(0), ws, chars@));
    }
    while i < v.len()
        invariant
            i <= v.len(),
            views(done@).push(cur@) == split_seq(v@.take(i as int), ws, chars@),
        decreases v.len() - i,
    {
        let c = v[i];
        proof {
            assert(v@.take(i + 1).drop_last() =~= v@.take(i as int));
            lemma_split_nonempty(v@.take(i as int), ws, chars@);
        }
        if is_separator(c, ws, chars) {
            let ghost old_done = done@;
            done.push(cur);
            cur = Vec::new();
            proof {
                assert(views(done@) =~= views(old_done).push(views(done@).last()));
                assert(views(done@).push(cur@) =~= split_seq(v@.take(i + 1), ws, chars@));
            }
        } else {
            cur.push(c);
            proof {
                assert(views(done@).push(cur@) =~= split_seq(v@.take(i + 1), ws, chars@));
            }
        }
        i = i + 1;
    }
    proof {
        assert(v@.take(v@.len() as int) =~= v@);
    }
    done.push(cur);
    proof {
        assert(views(done@) =~= split_seq(v@, ws, chars@));
    }
    done
}

/// The non-empty pieces, in order.
pub open spec fn nonempty(s: Seq<Seq<char>>) -> Seq<Seq<char>>
    decreases s.len(),
{
    if s.len() == 0 {
        s
    } else if s.last().len() > 0 {
        nonempty(s.drop_last()).push(s.last())
    } else {
        nonempty(s.drop_last())
    }
}

pub fn nonempty_pieces(v: &[Vec<char>]) -> (r: Vec<Vec<char>>)
    ensures
        views(r@) == nonempty(views(v@)),
{
    let mut r: Vec<Vec<char>> = Vec::new();
    let mut i: usize = 0;
    proof {
        assert(views(v@).take(0) =~= Seq::<Seq<char>>::empty());
    }
    while i < v.len()
        invariant
            i <= v.len(),
            views(r@) == nonempty(views(v@).take(i as int)),
        decreases v.len() - i,
    {
        proof {
            assert(views(v@).take(i + 1).drop_last() =~= views(v@).take(i as int));
        }
        if v[i].len() > 0 {
            let x = slice_vec(&v[i], 0, v[i].len());
            proof {
                assert(x@ =~= v@[i as int]@);
            }
            r.push(x);
            proof {
                assert(views(r@) =~= nonempty(views(v@).take(i + 1)));
            }
        }
        i = i + 1;
    }
    proof {
        assert(views(v@).take(i as int) =~= views(v@));
    }
    r
}

/// `str::split_whitespace`.
pub open spec fn tokens(s: Seq<char>) -> Seq<Seq<char>> {
    nonempty(split_seq(s, true, Seq::empty()))
}

pub fn split_whitespace(v: &[char]) -> (r: Vec<Vec<char>>)
    ensures
        views(r@) == tokens(v@),
{
    let none: Vec<char> = Vec::new();
    let pieces = split_chars(v, true, &none);
    nonempty_pieces(&pieces)
}

// ---------------------------------------------------------------------
// Decimal integers
// ---------------------------------------------------------------------
pub open spec fn all_digits(s: Seq<char>) -> bool {
    forall|i: int| 0 <= i < s.len() ==> is_digit(#[trigger] s[i])
}

pub open spec fn digit_val(c: char) -> int {
    (c as u32) - ('0' as u32)
}

/// The value of a string of decimal digits.
pub open spec fn digits_val(s: Seq<char>) -> int
    decreases s.len(),
{
    if s.len() == 0 {
        0
    } else {
        digits_val(s.drop_last()) * 10 + digit_val(s.last())
    }
}

pub proof fn lemma_digits_val_nonneg(s: Seq<char>)
    requires
        all_digits(s),
    ensures
        digits_val(s) >= 0,
    decreases s.len(),
{
    if s.len() > 0 {
        lemma_digits_val_nonneg(s.drop_last());
    }
}

/// A longer digit string is worth at least as much as its prefix.
pub proof fn lemma_digits_val_mono(s: Seq<char>, k: int)
    requires
        all_digits(s),
        0 <= k <= s.len(),
    ensures
        digits_val(s.take(k)) <= digits_val(s),
    decreases s.len(),
{
    if k < s.len() {
        assert(s.drop_last().take(k) =~= s.take(k));
        lemma_digits_val_mono(s.drop_last(), k);
        lemma_digits_val_nonneg(s.drop_last());
    } else {
        assert(s.take(k) =~= s);
    }
}

/// `str::parse::<i64>`: an optional `+` or `-`, then one or more digits, in
/// the range of `i64`.
pub open spec fn parse_i64_spec(s: Seq<char>) -> Option<i64> {
    let neg = s.len() > 0 && s[0] == '-';
    let ds = if s.len() > 0 && (s[0] == '-' || s[0] == '+') {
        s.drop_first()
    } else {
        s
    };
    if ds.len() == 0 || !all_digits(ds) {
        None
    } else {
        let v = if neg {
            -digits_val(ds)
        } else {
            digits_val(ds)
        };
        if i64::MIN <= v <= i64::MAX {
            Some(v as i64)
        } else {
            None
        }
    }
}

proof fn lemma_parse_none(s: Seq<char>, ds: Seq<char>)
    requires
        ds == (if s.len() > 0 && (s[0] == '-' || s[0] == '+') {
            s.drop_first()
        } else {
            s
        }),
        !all_digits(ds),
    ensures
        parse_i64_spec(s).is_none(),
{
}

pub fn parse_i64(v: &[char]) -> (r: Option<i64>)
    ensures
        r == parse_i64_spec(v@),
{
    let neg = v.len() > 0 && v[0] == '-';
    let start: usize = if v.len() > 0 && (v[0] == '-' || v[0] == '+') {
        1
    } else {
        0
    };
    let ghost ds = if v@.len() > 0 && (v@[0] == '-' || v@[0] == '+') {
        v@.drop_first()
    } else {
        v@
    };
    proof {
        assert(ds =~= v@.skip(start as int));
    }
    if start == v.len() {
        proof {
            assert(ds.len() == 0);
        }
        return None;
    }
    let mut acc: u64 = 0;
    let mut i: usize = start;
    let mut overflow = false;
    while i < v.len()
        invariant
            start <= i <= v.len(),
            ds =~= v@.skip(start as int),
            ds == (if v@.len() > 0 && (v@[0] == '-' || v@[0] == '+') {
                v@.drop_first()
            } else {
                v@
            }),
            neg == (v@.len() > 0 && v@[0] == '-'),
            all_digits(ds.take(i - start)),
            !overflow ==> acc == digits_val(ds.take(i - start)),
            !overflow ==> acc <= 9223372036854775808,
            overflow ==> digits_val(ds.take(i - start)) > 9223372036854775808,
        decreases v.len() - i,
    {
        let c = v[i];
        if !('0' <= c && c <= '9') {
            proof {
                assert(ds[i - start] == c);
                assert(!is_digit(ds[i - start]));
                assert(!all_digits(ds));
                lemma_parse_none(v@, ds);
            }
            return None;
        }
        proof {
            assert(ds.take(i - start + 1).drop_last() =~= ds.take(i - start));
            assert(all_digits(ds.take(i - start + 1)));
            lemma_digits_val_nonneg(ds.take(i - start));
        }
        if !overflow {
            let d = (c as u32 - '0' as u32) as u64;
            if acc > 922337203685477580 || (acc == 922337203685477580 && d > 8) {
                overflow = true;
            } else {
                acc = acc * 10 + d;
            }
        }
        i = i + 1;
    }
    proof {
        assert(ds.take(i - start) =~= ds);
    }
    if overflow {
        return None;
    }
    if neg {
        if acc == 9223372036854775808 {
            Some(i64::MIN)
        } else {
            Some(-(acc as i64))
        }
    } else {
        if acc > 9223372036854775807 {
            None
        } else {
            Some(acc as i64)
        }
    }
}

pub open spec fn digit_char(d: int) -> char {
    ((48 + d) as u8) as char
}

/// The decimal representation of a natural number, without leading zeros.
pub open spec fn dec(n: nat) -> Seq<char>
    decreases n,
{
    if n < 10 {
        seq![digit_char(n as int)]
    } else {
        dec(n / 10).push(digit_char(n as int % 10))
    }
}

/// The decimal representation of an integer (`i64::to_string`).
pub open spec fn dec_int(n: int) -> Seq<char> {
    if n < 0 {
        seq!['-'] + dec((-n) as nat)
    } else {
        dec(n as nat)
    }
}

fn push_decimal(out: &mut Vec<char>, n: u64)
    ensures
        final(out)@ == old(out)@ + dec(n as nat),
    decreases n,
{
    if n < 10 {
        let c = char_from_ascii((n + 48) as u32);
        out.push(c);
    } else {
        push_decimal(out, n / 10);
        let c = char_from_ascii((n % 10 + 48) as u32);
        out.push(c);
        proof {
            assert(dec(n as nat) == dec((n / 10) as nat).push(digit_char(n as int % 10)));
        }
    }
}

pub fn format_u64(n: u64) -> (r: Vec<char>)
    ensures
        r@ == dec(n as nat),
{
    let mut out: Vec<char> = Vec::new();
    push_decimal(&mut out, n);
    proof {
        assert(out@ =~= dec(n as nat));
    }
    out
}

pub fn format_i64(n: i64) -> (r: Vec<char>)
    ensures
        r@ == dec_int(n as int),
{
    if n < 0 {
        let m: u64 = if n == i64::MIN {
            9223372036854775808
        } else {
            (-n) as u64
        };
        let mut out: Vec<char> = Vec::new();
        out.push('-');
        push_decimal(&mut out, m);
        proof {
            assert(out@ =~= seq!['-'] + dec((-(n as int)) as nat));
        }
        out
    } else {
        format_u64(n as u64)
    }
}

pub proof fn lemma_dec_digits(n: nat)
    ensures
        all_digits(dec(n)),
        dec(n).len() >= 1,
        digits_val(dec(n)) == n,
    decreases n,
{
    if n >= 10 {
        lemma_dec_digits(n / 10);
        let d = dec(n / 10).push(digit_char(n as int % 10));
        assert(d.drop_last() =~= dec(n / 10));
        let k: u8 = (48 + n as int % 10) as u8;
        assert((k as char) as u32 == k);
        assert(digit_val(d.last()) == n as int % 10);
        assert(digits_val(d) == digits_val(d.drop_last()) * 10 + digit_val(d.last()));
        assert((n / 10) * 10 + n % 10 == n);
        assert(dec(n) == d);
        assert(digits_val(d) == n);
        assert(all_digits(d)) by {
            assert forall|i: int| 0 <= i < d.len() implies is_digit(#[trigger] d[i]) by {
                if i < d.len() - 1 {
                    assert(d[i] == dec(n / 10)[i]);
                }
            }
        }
    } else {
        let d = dec(n);
        let k: u8 = (48 + n as int) as u8;
        assert((k as char) as u32 == k);
        assert(d.drop_last() =~= Seq::<char>::empty());
        assert(d.last() == k as char);
        assert(digit_val(d.last()) == n);
        assert(digits_val(d) == digits_val(d.drop_last()) * 10 + digit_val(d.last()));
        assert(digits_val(d) == n);
        assert(is_digit(d[0]));
    }
}

/// Formatting an `i64` and parsing it back gives the same number.
pub proof fn lemma_parse_format_i64(n: i64)
    ensures
        parse_i64_spec(dec_int(n as int)) == Some(n),
{
    if n < 0 {
        let m = (-(n as int)) as nat;
        lemma_dec_digits(m);
        let s = dec_int(n as int);
        assert(s.drop_first() =~= dec(m));
    } else {
        lemma_dec_digits(n as nat);
        let s = dec(n as nat);
        assert(s[0] != '-' && s[0] != '+') by {
            assert(is_digit(s[0]));
        }
    }
}

// ---------------------------------------------------------------------
// Searching
// ---------------------------------------------------------------------
/// The index of the first occurrence of `c` in `s`, if any.
pub open spec fn index_of(s: Seq<char>, c: char) -> Option<int> {
    if exists|i: int| 0 <= i < s.len() && s[i] == c && forall|j: int| 0 <= j < i ==> s[j] != c {
        Some(
            choose|i: int| 0 <= i < s.len() && s[i] == c && forall|j: int| 0 <= j < i ==> s[j] != c,
        )
    } else {
        None
    }
}

/// `i` is the index of the first `c` in `s`.
pub proof fn lemma_index_of(s: Seq<char>, c: char, i: int)
    requires
        0 <= i < s.len(),
        s[i] == c,
        forall|j: int| 0 <= j < i ==> s[j] != c,
    ensures
        index_of(s, c) == Some(i),
{
    let k = choose|k: int| 0 <= k < s.len() && s[k] == c && forall|j: int| 0 <= j < k ==> s[j] != c;
    assert(0 <= k < s.len() && s[k] == c && forall|j: int| 0 <= j < k ==> s[j] != c);
    if k < i {
        assert(s[k] != c);
    }
    if i < k {
        assert(s[i] != c);
    }
}

/// `index_of` finds no `c` in a sequence that has none.
pub proof fn lemma_index_of_none(s: Seq<char>, c: char)
    requires
        forall|j: int| 0 <= j < s.len() ==> s[j] != c,
    ensures
        index_of(s, c) is None,
{
}

/// The index of the first `c` in `v`.
pub fn find_char(v: &[char], c: char) -> (r: Option<usize>)
    ensures
        match r {
            Some(i) => index_of(v@, c) == Some(i as int) && i < v@.len() && v@[i as int] == c,
            None => index_of(v@, c) is None,
        },
{
    let mut i: usize = 0;
    while i < v.len()
        invariant
            i <= v.len(),
            forall|j: int| 0 <= j < i ==> v@[j] != c,
        decreases v.len() - i,
    {
        if v[i] == c {
            proof {
                lemma_index_of(v@, c, i as int);
            }
            return Some(i);
        }
        i = i + 1;
    }
    proof {
        lemma_index_of_none(v@, c);
    }
    None
}

/// `String::from_utf8`: the text of `bytes` when they are valid UTF-8.
#[verifier::external_body]
pub fn utf8_string(bytes: Vec<u8>) -> (r: Option<String>)
    ensures
        r is Some <==> valid_utf8(bytes@),
        r matches Some(s) ==> s@ == decode_utf8(bytes@),
{
    String::from_utf8(bytes).ok()
}

/// The UTF-8 bytes of the characters.
pub fn utf8_bytes(v: &[char]) -> (r: Vec<u8>)
    ensures
        r@ == vstd::utf8::encode_utf8(v@),
{
    let s = string_of(v);
    let b = s.as_str().as_bytes();
    slice_vec(b, 0, b.len())
}

/// Splitting `a`, a separator and `b` gives the pieces of `a`, then those
/// of `b`.
pub proof fn lemma_split_concat(a: Seq<char>, sep: char, b: Seq<char>, ws: bool, chars: Seq<char>)
    requires
        is_sep(sep, ws, chars),
    ensures
        split_seq(a + seq![sep] + b, ws, chars) == split_seq(a, ws, chars) + split_seq(b, ws, chars),
    decreases b.len(),
{
    let whole = a + seq![sep] + b;
    if b.len() == 0 {
        assert(whole.drop_last() =~= a);
        assert(split_seq(b, ws, chars) =~= seq![Seq::<char>::empty()]);
        assert(split_seq(whole, ws, chars) =~= split_seq(a, ws, chars) + split_seq(b, ws, chars));
    } else {
        assert(whole.drop_last() =~= a + seq![sep] + b.drop_last());
        lemma_split_concat(a, sep, b.drop_last(), ws, chars);
        lemma_split_nonempty(b.drop_last(), ws, chars);
        assert(whole.last() == b.last());
        let ra = split_seq(a, ws, chars);
        let rb = split_seq(b.drop_last(), ws, chars);
        if is_sep(b.last(), ws, chars) {
            assert(split_seq(whole, ws, chars) =~= ra + split_seq(b, ws, chars));
        } else {
            assert((ra + rb).last() == rb.last());
            assert(split_seq(whole, ws, chars) =~= ra + split_seq(b, ws, chars));
        }
    }
}

/// Text without a separator is a single piece.
pub proof fn lemma_split_single(s: Seq<char>, ws: bool, chars: Seq<char>)
    requires
        forall|i: int| 0 <= i < s.len() ==> !is_sep(#[trigger] s[i], ws, chars),
    ensures
        split_seq(s, ws, chars) == seq![s],
    decreases s.len(),
{
    if s.len() > 0 {
        lemma_split_single(s.drop_last(), ws, chars);
        assert(!is_sep(s[s.len() - 1], ws, chars));
        assert(s.drop_last().push(s.last()) =~= s);
        assert(split_seq(s, ws, chars) =~= seq![s]);
    } else {
        assert(s =~= Seq::<char>::empty());
        assert(split_seq(s, ws, chars) =~= seq![s]);
    }
}

/// The pieces with `sep` between each two (`[..].join(sep)`).
pub open spec fn join_with(parts: Seq<Seq<char>>, sep: Seq<char>) -> Seq<char>
    decreases parts.len(),
{
    if parts.len() == 0 {
        Seq::empty()
    } else if parts.len() == 1 {
        parts[0]
    } else {
        join_with(parts.drop_last(), sep) + sep + parts.last()
    }
}

/// The pieces with `sep` between each two.
pub fn join_chars(parts: &[Vec<char>], sep: &[char]) -> (r: Vec<char>)
    ensures
        r@ == join_with(views(parts@), sep@),
{
    let ghost vs = views(parts@);
    let mut out: Vec<char> = Vec::new();
    let mut i: usize = 0;
    while i < parts.len()
        invariant
            i <= parts@.len(),
            vs == views(parts@),
            out@ == join_with(vs.take(i as int), sep@),
        decreases parts.len() - i,
    {
        if i > 0 {
            extend_vec(&mut out, sep);
        }
        extend_vec(&mut out, &parts[i]);
        proof {
            let t = vs.take(i + 1);
            assert(t.drop_last() =~= vs.take(i as int));
            assert(t.last() == parts@[i as int]@);
            assert(out@ =~= join_with(t, sep@));
        }
        i = i + 1;
    }
    proof {
        assert(vs.take(i as int) =~= vs);
    }
    out
}

/// The pieces that hold more than whitespace, in order.
pub open spec fn nonblank(s: Seq<Seq<char>>) -> Seq<Seq<char>>
    decreases s.len(),
{
    if s.len() == 0 {
        s
    } else if trim(s.last()).len() > 0 {
        nonblank(s.drop_last()).push(s.last())
    } else {
        nonblank(s.drop_last())
    }
}

pub fn nonblank_pieces(v: &[Vec<char>]) -> (r: Vec<Vec<char>>)
    ensures
        views(r@) == nonblank(views(v@)),
{
    let mut r: Vec<Vec<char>> = Vec::new();
    let mut i: usize = 0;
    proof {
        assert(views(v@).take(0) =~= Seq::<Seq<char>>::empty());
    }
    while i < v.len()
        invariant
            i <= v.len(),
            views(r@) == nonblank(views(v@).take(i as int)),
        decreases v.len() - i,
    {
        proof {
            assert(views(v@).take(i + 1).drop_last() =~= views(v@).take(i as int));
        }
        let t = trim_chars(&v[i]);
        if t.len() > 0 {
            let x = slice_vec(&v[i], 0, v[i].len());
            proof {
                assert(x@ =~= v@[i as int]@);
            }
            r.push(x);
            proof {
                assert(views(r@) =~= nonblank(views(v@).take(i + 1)));
            }
        }
        i = i + 1;
    }
    proof {
        assert(views(v@).take(i as int) =~= views(v@));
    }
    r
}

/// The index of the first occurrence of `p` in `s`, if any.
pub open spec fn first_occurrence(s: Seq<char>, p: Seq<char>) -> Option<int> {
    if exists|i: int| occurs_at(s, p, i) && forall|j: int| 0 <= j < i ==> !occurs_at(s, p, j) {
        Some(choose|i: int| occurs_at(s, p, i) && forall|j: int| 0 <= j < i ==> !occurs_at(s, p, j))
    } else {
        None
    }
}

proof fn lemma_first_occurrence(s: Seq<char>, p: Seq<char>, i: int)
    requires
        occurs_at(s, p, i),
        forall|j: int| 0 <= j < i ==> !occurs_at(s, p, j),
    ensures
        first_occurrence(s, p) == Some(i),
{
    let k = choose|k: int| occurs_at(s, p, k) && forall|j: int| 0 <= j < k ==> !occurs_at(s, p, j);
    assert(occurs_at(s, p, k) && forall|j: int| 0 <= j < k ==> !occurs_at(s, p, j));
    if k < i {
        assert(!occurs_at(s, p, k));
    }
    if i < k {
        assert(!occurs_at(s, p, i));
    }
}

/// The index of the first occurrence of `p` in `s`.
pub fn find_seq(s: &[char], p: &[char]) -> (r: Option<usize>)
    ensures
        match r {
            Some(i) => first_occurrence(s@, p@) == Some(i as int) && occurs_at(s@, p@, i as int),
            None => first_occurrence(s@, p@) is None,
        },
{
    let mut i: usize = 0;
    while i < s.len()
        invariant
            i <= s.len(),
            forall|j: int| 0 <= j < i ==> !occurs_at(s@, p@, j),
        decreases s.len() - i,
    {
        if matches_at(s, p, i) {
            proof {
                lemma_first_occurrence(s@, p@, i as int);
            }
            return Some(i);
        }
        i = i + 1;
    }
    if matches_at(s, p, i) {
        proof {
            lemma_first_occurrence(s@, p@, i as int);
        }
        return Some(i);
    }
    proof {
        assert forall|j: int| !(occurs_at(s@, p@, j) && forall|k: int| 0 <= k < j ==> !occurs_at(s@, p@, k)) by {
            if occurs_at(s@, p@, j) {
                assert(j <= s@.len());
            }
        }
    }
    None
}

/// Removes every leading occurrence of `p` (`trim_start_matches(p)`).
pub open spec fn trim_start_str(s: Seq<char>, p: Seq<char>) -> Seq<char>
    decreases s.len(),
{
    if p.len() > 0 && starts_with(s, p) {
        trim_start_str(s.skip(p.len() as int), p)
    } else {
        s
    }
}

pub fn trim_start_str_chars(v: &[char], p: &[char]) -> (r: Vec<char>)
    ensures
        r@ == trim_start_str(v@, p@),
{
    let mut i: usize = 0;
    proof {
        assert(v@.skip(0) =~= v@);
    }
    while i <= v.len()
        invariant
            i <= v@.len(),
            trim_start_str(v@, p@) == trim_start_str(v@.skip(i as int), p@),
        decreases v.len() - i,
    {
        let rest = slice_vec(v, i, v.len());
        proof {
            assert(rest@ =~= v@.skip(i as int));
        }
        if p.len() == 0 || !has_prefix(&rest, p) {
            return rest;
        }
        proof {
            assert(v@.skip(i as int).skip(p@.len() as int) =~= v@.skip(i + p@.len()));
        }
        i = i + p.len();
    }
    slice_vec(v, i, v.len())
}

/// Removes every trailing occurrence of `p` (`trim_end_matches(p)`).
pub open spec fn trim_end_str(s: Seq<char>, p: Seq<char>) -> Seq<char>
    decreases s.len(),
{
    if p.len() > 0 && ends_with(s, p) {
        trim_end_str(s.take(s.len() - p.len()), p)
    } else {
        s
    }
}

pub fn trim_end_str_chars(v: &[char], p: &[char]) -> (r: Vec<char>)
    ensures
        r@ == trim_end_str(v@, p@),
{
    let mut j: usize = v.len();
    proof {
        assert(v@.take(j as int) =~= v@);
    }
    loop
        invariant
            j <= v@.len(),
            trim_end_str(v@, p@) == trim_end_str(v@.take(j as int), p@),
        decreases j,
    {
        let head = slice_vec(v, 0, j);
        proof {
            assert(head@ =~= v@.take(j as int));
        }
        if p.len() == 0 || !has_suffix(&head, p) {
            return head;
        }
        proof {
            assert(v@.take(j as int).take(j - p@.len()) =~= v@.take(j - p@.len()));
        }
        j = j - p.len();
    }
}

/// What `str::to_lowercase` makes of a text: its Unicode lowercase form.
pub uninterp spec fn unicode_lower(s: Seq<char>) -> Seq<char>;

/// `str::to_lowercase`: the Unicode lowercase form, named `unicode_lower`;
/// on ASCII text it is the ASCII lowercase form.
#[verifier::external_body]
pub fn to_lowercase(s: &str) -> (r: String)
    ensures
        r@ == unicode_lower(s@),
        vstd::utf8::is_ascii_chars(s@) ==> r@ == lower_seq(s@),
{
    s.to_lowercase()
}

/// Splitting the pieces joined with a separator that none of them holds
/// gives the pieces back.
pub proof fn lemma_split_join(parts: Seq<Seq<char>>, sep: char)
    requires
        parts.len() >= 1,
        forall|i: int, j: int| 0 <= i < parts.len() && 0 <= j < parts[i].len() ==> parts[i][j] != sep,
    ensures
        split_seq(join_with(parts, seq![sep]), false, seq![sep]) == parts,
    decreases parts.len(),
{
    assert(seq![sep].contains(sep)) by {
        assert(seq![sep][0] == sep);
    }
    if parts.len() == 1 {
        assert forall|j: int| 0 <= j < parts[0].len() implies !is_sep(#[trigger] parts[0][j], false, seq![sep]) by {
            if seq![sep].contains(parts[0][j]) {
                let k = choose|k: int| 0 <= k < 1 && seq![sep][k] == parts[0][j];
                assert(seq![sep][k] == sep);
            }
        }
        lemma_split_single(parts[0], false, seq![sep]);
        assert(split_seq(join_with(parts, seq![sep]), false, seq![sep]) =~= parts);
    } else {
        let init = parts.drop_last();
        lemma_split_join(init, sep);
        let last = parts.last();
        assert forall|j: int| 0 <= j < last.len() implies !is_sep(#[trigger] last[j], false, seq![sep]) by {
            assert(last[j] == parts[parts.len() - 1][j]);
            if seq![sep].contains(last[j]) {
                let k = choose|k: int| 0 <= k < 1 && seq![sep][k] == last[j];
                assert(seq![sep][k] == sep);
            }
        }
        lemma_split_single(last, false, seq![sep]);
        lemma_split_concat(join_with(init, seq![sep]), sep, last, false, seq![sep]);
        assert(join_with(init, seq![sep]) + seq![sep] + last == join_with(parts, seq![sep]));
        assert(init + seq![last] =~= parts);
    }
}

/// Every character of the joined text is one of the pieces' or the
/// separator's.
pub proof fn lemma_join_chars(parts: Seq<Seq<char>>, sep: Seq<char>, p: spec_fn(char) -> bool)
    requires
        forall|i: int, j: int| 0 <= i < parts.len() && 0 <= j < parts[i].len() ==> p(parts[i][j]),
        forall|j: int| 0 <= j < sep.len() ==> p(sep[j]),
    ensures
        forall|k: int| 0 <= k < join_with(parts, sep).len() ==> p(#[trigger] join_with(parts, sep)[k]),
        parts.len() >= 1 && parts[0].len() > 0 ==> join_with(parts, sep).len() > 0,
    decreases parts.len(),
{
    if parts.len() > 1 {
        let init = parts.drop_last();
        lemma_join_chars(init, sep, p);
        let a = join_with(init, sep);
        let w = a + sep + parts.last();
        assert forall|k: int| 0 <= k < w.len() implies p(#[trigger] w[k]) by {
            if k < a.len() {
                assert(w[k] == a[k]);
            } else if k < a.len() + sep.len() {
                assert(w[k] == sep[k - a.len()]);
            } else {
                assert(w[k] == parts[parts.len() - 1][k - a.len() - sep.len()]);
            }
        }
        if parts[0].len() > 0 {
            assert(init[0] == parts[0]);
        }
    } else if parts.len() == 1 {
        assert forall|k: int| 0 <= k < join_with(parts, sep).len() implies p(#[trigger] join_with(parts, sep)[k]) by {
            assert(join_with(parts, sep)[k] == parts[0][k]);
        }
    }
}

/// A text with no whitespace is its own trim.
pub proof fn lemma_trim_no_ws(s: Seq<char>)
    requires
        forall|i: int| 0 <= i < s.len() ==> !is_ws(#[trigger] s[i]),
    ensures
        trim(s) == s,
{
    assert(trim_start(s) == s);
    if s.len() > 0 {
        assert(!is_ws(s[s.len() - 1]));
    }
    assert(trim_end(s) == s);
}

/// The order of texts: by their characters' code points, a proper prefix
/// first (the order of `String`'s comparison).
pub open spec fn lex_lt(a: Seq<char>, b: Seq<char>) -> bool
    decreases a.len(),
{
    if a.len() == 0 {
        b.len() > 0
    } else if b.len() == 0 {
        false
    } else if a[0] != b[0] {
        (a[0] as int) < (b[0] as int)
    } else {
        lex_lt(a.drop_first(), b.drop_first())
    }
}

pub proof fn lemma_lex_irreflexive(a: Seq<char>)
    ensures
        !lex_lt(a, a),
    decreases a.len(),
{
    if a.len() > 0 {
        lemma_lex_irreflexive(a.drop_first());
    }
}

pub proof fn lemma_lex_trans(a: Seq<char>, b: Seq<char>, c: Seq<char>)
    requires
        lex_lt(a, b),
        lex_lt(b, c),
    ensures
        lex_lt(a, c),
    decreases a.len(),
{
    if a.len() > 0 && b.len() > 0 && c.len() > 0 && a[0] == b[0] && b[0] == c[0] {
        lemma_lex_trans(a.drop_first(), b.drop_first(), c.drop_first());
    }
}

pub proof fn lemma_lex_total(a: Seq<char>, b: Seq<char>)
    ensures
        a == b || lex_lt(a, b) || lex_lt(b, a),
    decreases a.len(),
{
    if a.len() > 0 && b.len() > 0 {
        if a[0] == b[0] {
            lemma_lex_total(a.drop_first(), b.drop_first());
            if a.drop_first() == b.drop_first() {
                assert(a =~= seq![a[0]] + a.drop_first());
                assert(b =~= seq![b[0]] + b.drop_first());
            }
        } else {
            assert((a[0] as int) != (b[0] as int));
        }
    } else if a.len() == 0 && b.len() == 0 {
        assert(a =~= b);
    }
}

pub fn lex_less(a: &[char], b: &[char]) -> (r: bool)
    ensures
        r == lex_lt(a@, b@),
{
    let mut i: usize = 0;
    proof {
        assert(a@.skip(0) =~= a@);
        assert(b@.skip(0) =~= b@);
    }
    loop
        invariant
            i <= a@.len(),
            i <= b@.len(),
            lex_lt(a@, b@) == lex_lt(a@.skip(i as int), b@.skip(i as int)),
        decreases a.len() - i,
    {
        if i == a.len() {
            return i < b.len();
        }
        if i == b.len() {
            return false;
        }
        if a[i] != b[i] {
            return a[i] < b[i];
        }
        proof {
            assert(a@.skip(i as int).drop_first() =~= a@.skip(i + 1));
            assert(b@.skip(i as int).drop_first() =~= b@.skip(i + 1));
        }
        i = i + 1;
    }
}

proof fn lemma_trim_start_shape(s: Seq<char>)
    ensures
        trim_start(s).len() <= s.len(),
        trim_start(s) == s.skip(s.len() - trim_start(s).len()),
        trim_start(s).len() > 0 ==> !is_ws(trim_start(s)[0]),
    decreases s.len(),
{
    if s.len() > 0 && is_ws(s[0]) {
        lemma_trim_start_shape(s.drop_first());
        let k = trim_start(s).len();
        assert(s.drop_first().skip(s.drop_first().len() - k) =~= s.skip(s.len() - k));
    } else {
        assert(s.skip(0) =~= s);
    }
}

proof fn lemma_trim_end_shape(s: Seq<char>)
    ensures
        trim_end(s).len() <= s.len(),
        trim_end(s) == s.take(trim_end(s).len() as int),
        trim_end(s).len() > 0 ==> !is_ws(trim_end(s).last()),
    decreases s.len(),
{
    if s.len() > 0 && is_ws(s.last()) {
        lemma_trim_end_shape(s.drop_last());
        let k = trim_end(s).len();
        assert(s.drop_last().take(k as int) =~= s.take(k as int));
    } else {
        assert(s.take(s.len() as int) =~= s);
    }
}

/// A text that neither starts nor ends with whitespace is its own trim.
pub proof fn lemma_trim_fixed(t: Seq<char>)
    requires
        t.len() > 0 ==> !is_ws(t[0]) && !is_ws(t.last()),
    ensures
        trim(t) == t,
{
    assert(trim_start(t) == t);
    assert(trim_end(t) == t);
}

/// A trimmed text neither starts nor ends with whitespace, and trimming it
/// again changes nothing.
pub proof fn lemma_trim_idempotent(s: Seq<char>)
    ensures
        trim(s).len() > 0 ==> !is_ws(trim(s)[0]) && !is_ws(trim(s).last()),
        trim(trim(s)) == trim(s),
{
    let t = trim_start(s);
    lemma_trim_start_shape(s);
    lemma_trim_end_shape(t);
    let u = trim_end(t);
    if u.len() > 0 {
        assert(u[0] == t[0]);
    }
    lemma_trim_fixed(u);
}

proof fn lemma_lower_char(c: char)
    ensures
        is_ws(lower(c)) == is_ws(c),
        lower(lower(c)) == lower(c),
{
    if 'A' <= c <= 'Z' {
        let u = (c as u32) + 32;
        assert(0x61 <= u <= 0x7A);
        assert(lower(c) as u32 == u);
    }
}

/// The lowercase of a trimmed text is trimmed and already lowercase.
pub proof fn lemma_lower_trim(s: Seq<char>)
    ensures
        trim(lower_seq(trim(s))) == lower_seq(trim(s)),
        lower_seq(lower_seq(trim(s))) == lower_seq(trim(s)),
{
    let t = trim(s);
    let l = lower_seq(t);
    lemma_trim_idempotent(s);
    if l.len() > 0 {
        lemma_lower_char(t[0]);
        lemma_lower_char(t[t.len() - 1]);
    }
    lemma_trim_fixed(l);
    assert forall|i: int| 0 <= i < l.len() implies lower_seq(l)[i] == l[i] by {
        lemma_lower_char(t[i]);
    }
    assert(lower_seq(l) =~= l);
}

/// No piece of a split holds a separator.
pub proof fn lemma_split_pieces(s: Seq<char>, ws: bool, chars: Seq<char>)
    ensures
        forall|i: int, j: int|
            0 <= i < split_seq(s, ws, chars).len() && 0 <= j < split_seq(s, ws, chars)[i].len() ==> !is_sep(
                #[trigger] split_seq(s, ws, chars)[i][j],
                ws,
                chars,
            ),
    decreases s.len(),
{
    if s.len() > 0 {
        lemma_split_pieces(s.drop_last(), ws, chars);
        lemma_split_nonempty(s.drop_last(), ws, chars);
        let r = split_seq(s.drop_last(), ws, chars);
        let n = split_seq(s, ws, chars);
        assert forall|i: int, j: int| 0 <= i < n.len() && 0 <= j < n[i].len() implies !is_sep(
            #[trigger] n[i][j],
            ws,
            chars,
        ) by {
            if is_sep(s.last(), ws, chars) {
                if i < r.len() {
                    assert(n[i] == r[i]);
                }
            } else {
                if i < r.len() - 1 {
                    assert(n[i] == r[i]);
                } else {
                    assert(n[i] == r.last().push(s.last()));
                    if j < r.last().len() {
                        assert(n[i][j] == r[r.len() - 1][j]);
                    }
                }
            }
        }
    }
}

/// Splitting pieces joined with a separator that none of them holds gives
/// the pieces back.
pub proof fn lemma_split_join_sep(parts: Seq<Seq<char>>, sep: char, ws: bool, chars: Seq<char>)
    requires
        parts.len() >= 1,
        is_sep(sep, ws, chars),
        forall|i: int, j: int| 0 <= i < parts.len() && 0 <= j < parts[i].len() ==> !is_sep(#[trigger] parts[i][j], ws, chars),
    ensures
        split_seq(join_with(parts, seq![sep]), ws, chars) == parts,
    decreases parts.len(),
{
    if parts.len() == 1 {
        assert forall|j: int| 0 <= j < parts[0].len() implies !is_sep(#[trigger] parts[0][j], ws, chars) by {
            assert(!is_sep(parts[0][j], ws, chars));
        }
        lemma_split_single(parts[0], ws, chars);
        assert(split_seq(join_with(parts, seq![sep]), ws, chars) =~= parts);
    } else {
        let init = parts.drop_last();
        assert forall|i: int, j: int| 0 <= i < init.len() && 0 <= j < init[i].len() implies !is_sep(#[trigger] init[i][j], ws, chars) by {
            assert(init[i] == parts[i]);
        }
        lemma_split_join_sep(init, sep, ws, chars);
        let last = parts.last();
        assert forall|j: int| 0 <= j < last.len() implies !is_sep(#[trigger] last[j], ws, chars) by {
            assert(last[j] == parts[parts.len() - 1][j]);
        }
        lemma_split_single(last, ws, chars);
        lemma_split_concat(join_with(init, seq![sep]), sep, last, ws, chars);
        assert(join_with(init, seq![sep]) + seq![sep] + last == join_with(parts, seq![sep]));
        assert(init + seq![last] =~= parts);
    }
}

/// Keeping the non-empty pieces keeps only pieces that were there, and
/// keeps every piece where none is empty.
pub proof fn lemma_nonempty_all(s: Seq<Seq<char>>)
    ensures
        forall|x: Seq<char>| nonempty(s).contains(x) ==> s.contains(x),
        (forall|i: int| 0 <= i < s.len() ==> (#[trigger] s[i]).len() > 0) ==> nonempty(s) == s,
    decreases s.len(),
{
    if s.len() > 0 {
        lemma_nonempty_all(s.drop_last());
        assert forall|x: Seq<char>| nonempty(s).contains(x) implies s.contains(x) by {
            let p = nonempty(s.drop_last());
            if p.contains(x) {
                assert(s.drop_last().contains(x));
                let i = choose|i: int| 0 <= i < s.drop_last().len() && s.drop_last()[i] == x;
                assert(s[i] == x);
            } else {
                let k = choose|k: int| 0 <= k < nonempty(s).len() && nonempty(s)[k] == x;
                if s.last().len() > 0 {
                    if k < p.len() {
                        assert(nonempty(s)[k] == p[k]);
                    }
                    assert(x == s.last());
                    assert(s[s.len() - 1] == x);
                } else {
                    assert(nonempty(s)[k] == p[k]);
                }
            }
        }
        if forall|i: int| 0 <= i < s.len() ==> (#[trigger] s[i]).len() > 0 {
            assert forall|i: int| 0 <= i < s.drop_last().len() implies (#[trigger] s.drop_last()[i]).len() > 0 by {
                assert(s.drop_last()[i] == s[i]);
            }
            assert(s[s.len() - 1].len() > 0);
            assert(s.drop_last().push(s.last()) =~= s);
        }
    }
}

} // verus!

