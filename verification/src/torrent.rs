//! Torrent metainfo: a bencode parser, the file list of a torrent and its
//! info hash.
use crate::text::{
    all_digits, digits_val, is_digit, lemma_digits_val_nonneg, parse_i64, parse_i64_spec,
    slice_vec,
};
use vstd::prelude::*;
use vstd::utf8::{decode_utf8, valid_utf8};

verus! {

/// A decoded bencode value, as a mathematical value.
pub enum BVal {
    Int(int),
    Bytes(Seq<u8>),
    List(Seq<BVal>),
    Dict(Seq<(Seq<u8>, BVal)>),
}

/// A decoded bencode value.
pub enum BValue {
    Integer(i64),
    Bytes(Vec<u8>),
    List(Vec<BValue>),
    Dict(Vec<(Vec<u8>, BValue)>),
}

impl BValue {
    pub open spec fn model(self) -> BVal
        decreases self,
    {
        match self {
            BValue::Integer(i) => BVal::Int(i as int),
            BValue::Bytes(b) => BVal::Bytes(b@),
            BValue::List(items) => BVal::List(BValue::list_model(items@)),
            BValue::Dict(items) => BVal::Dict(BValue::dict_model(items@)),
        }
    }

    pub open spec fn list_model(items: Seq<BValue>) -> Seq<BVal>
        decreases items,
    {
        if items.len() == 0 {
            Seq::empty()
        } else {
            BValue::list_model(items.drop_last()).push(items.last().model())
        }
    }

    pub open spec fn dict_model(items: Seq<(Vec<u8>, BValue)>) -> Seq<(Seq<u8>, BVal)>
        decreases items,
    {
        if items.len() == 0 {
            Seq::empty()
        } else {
            BValue::dict_model(items.drop_last()).push((items.last().0@, items.last().1.model()))
        }
    }
}

/// Why a byte string is not bencode.
#[derive(Debug, Clone, Copy, PartialEq, Eq, Structural)]
pub enum BencodeError {
    /// The input ends inside a value.
    UnexpectedEnd,
    /// A value starts with a byte that begins no bencode value.
    InvalidByte(u8),
    /// The text of an integer, the input from the first position up to
    /// the second, is not an `i64`.
    InvalidInteger(usize, usize),
    /// A byte-string length holds a byte that is not a digit.
    LengthNotNumeric,
    /// A byte-string length, the input from the first position up to the
    /// second, is empty or does not fit in `usize`.
    InvalidLength(usize, usize),
    /// The end of a byte string does not fit in `usize`.
    LengthTooLong,
    /// A byte string runs past the end of the input.
    ExceedsInput,
    /// A byte other than the one required.
    Expected(u8),
}

/// What `str::parse::<i64>` reports of a text it refuses (its error's
/// text).
pub uninterp spec fn i64_parse_error(s: Seq<char>) -> Seq<char>;

/// What `str::parse::<usize>` reports of a text it refuses.
pub uninterp spec fn usize_parse_error(s: Seq<char>) -> Seq<char>;

/// What `std::str::from_utf8` reports of bytes that are not UTF-8.
pub uninterp spec fn utf8_error_text(b: Seq<u8>) -> Seq<char>;

/// The text of a bencode error in `input`: the text of a number that does
/// not parse is what the standard library reports of it (the integer's
/// bytes are read as UTF-8 first, and that error is reported where they
/// are not UTF-8).
pub open spec fn spec_bencode_message(input: Seq<u8>, e: BencodeError) -> Seq<char> {
    match e {
        BencodeError::UnexpectedEnd => "unexpected end of bencode input"@,
        BencodeError::InvalidByte(b) => "invalid bencode byte: "@ + crate::text::dec(b as nat),
        BencodeError::InvalidInteger(f, t) => if f <= t <= input.len() {
            let text = input.subrange(f as int, t as int);
            if !valid_utf8(text) {
                utf8_error_text(text)
            } else if parse_i64_spec(decode_utf8(text)) is None {
                i64_parse_error(decode_utf8(text))
            } else {
                "invalid bencode integer"@
            }
        } else {
            "invalid bencode integer"@
        },
        BencodeError::LengthNotNumeric => "bencode byte string length must be numeric"@,
        BencodeError::InvalidLength(f, t) => if f <= t <= input.len() && all_digits(
            latin1(input.subrange(f as int, t as int)),
        ) && !(t > f && digits_val(latin1(input.subrange(f as int, t as int))) <= usize::MAX) {
            usize_parse_error(latin1(input.subrange(f as int, t as int)))
        } else {
            "invalid bencode byte string length"@
        },
        BencodeError::LengthTooLong => "bencode byte string is too long"@,
        BencodeError::ExceedsInput => "bencode byte string exceeds input"@,
        BencodeError::Expected(b) => "expected bencode byte: "@ + crate::text::dec(b as nat),
    }
}

/// `std::str::from_utf8(bytes)`: no error exactly where the bytes are
/// UTF-8; else its error's text, as `utf8_error_text` names it.
#[verifier::external_body]
fn str_from_utf8_error(bytes: &[u8]) -> (r: Option<String>)
    ensures
        r is None <==> valid_utf8(bytes@),
        r matches Some(e) ==> e@ == utf8_error_text(bytes@),
{
    std::str::from_utf8(bytes).err().map(|error| error.to_string())
}

/// `s.parse::<i64>()`: no error exactly where the text is an optional sign
/// and decimal digits in the range of `i64`; else its error's text, as
/// `i64_parse_error` names it.
#[verifier::external_body]
fn i64_parse_error_text(s: &str) -> (r: Option<String>)
    ensures
        r is None <==> parse_i64_spec(s@) is Some,
        r matches Some(e) ==> e@ == i64_parse_error(s@),
{
    s.parse::<i64>().err().map(|error| error.to_string())
}

/// `s.parse::<usize>()` on decimal digits: no error exactly where there is
/// at least one digit and the value fits in `usize`; else its error's text,
/// as `usize_parse_error` names it.
#[verifier::external_body]
fn usize_parse_error_text(s: &str) -> (r: Option<String>)
    requires
        all_digits(s@),
    ensures
        r is None <==> (s@.len() > 0 && digits_val(s@) <= usize::MAX),
        r matches Some(e) ==> e@ == usize_parse_error(s@),
{
    s.parse::<usize>().err().map(|error| error.to_string())
}

fn text_with_number(prefix: &str, n: u8) -> (r: String)
    ensures
        r@ == prefix@ + crate::text::dec(n as nat),
{
    let mut v = crate::text::chars_of(prefix);
    crate::text::extend_vec(&mut v, &crate::text::format_u64(n as u64));
    crate::text::string_of(&v)
}

fn all_digit_chars(v: &[char]) -> (r: bool)
    ensures
        r == all_digits(v@),
{
    let mut i: usize = 0;
    while i < v.len()
        invariant
            i <= v@.len(),
            forall|j: int| 0 <= j < i ==> is_digit(#[trigger] v@[j]),
        decreases v.len() - i,
    {
        if !('0' <= v[i] && v[i] <= '9') {
            return false;
        }
        i = i + 1;
    }
    true
}

impl BencodeError {
    /// The text of this error in `input`, the bytes being parsed.
    pub fn message(&self, input: &[u8]) -> (r: String)
        ensures
            r@ == spec_bencode_message(input@, *self),
    {
        match self {
            BencodeError::UnexpectedEnd => "unexpected end of bencode input".to_owned(),
            BencodeError::InvalidByte(b) => text_with_number("invalid bencode byte: ", *b),
            BencodeError::InvalidInteger(f, t) => {
                if *f <= *t && *t <= input.len() {
                    let text = slice_vec(input, *f, *t);
                    match str_from_utf8_error(text.as_slice()) {
                        Some(e) => e,
                        None => match crate::text::utf8_string(text) {
                            Some(decoded) => match i64_parse_error_text(decoded.as_str()) {
                                Some(e) => e,
                                None => "invalid bencode integer".to_owned(),
                            },
                            None => "invalid bencode integer".to_owned(),
                        },
                    }
                } else {
                    "invalid bencode integer".to_owned()
                }
            },
            BencodeError::LengthNotNumeric => "bencode byte string length must be numeric".to_owned(),
            BencodeError::InvalidLength(f, t) => {
                if *f <= *t && *t <= input.len() {
                    let chars = latin1_range(input, *f, *t);
                    let text = crate::text::string_of(&chars);
                    if all_digit_chars(&chars) {
                        match usize_parse_error_text(text.as_str()) {
                            Some(e) => e,
                            None => "invalid bencode byte string length".to_owned(),
                        }
                    } else {
                        "invalid bencode byte string length".to_owned()
                    }
                } else {
                    "invalid bencode byte string length".to_owned()
                }
            },
            BencodeError::LengthTooLong => "bencode byte string is too long".to_owned(),
            BencodeError::ExceedsInput => "bencode byte string exceeds input".to_owned(),
            BencodeError::Expected(b) => text_with_number("expected bencode byte: ", *b),
        }
    }
}

pub open spec fn is_digit_byte(x: u8) -> bool {
    48 <= x <= 57
}

/// The bytes read as Latin-1 characters.
pub open spec fn latin1(b: Seq<u8>) -> Seq<char> {
    b.map_values(|x: u8| x as char)
}

/// The first index at or after `from` that holds `stop`; the length if none.
pub open spec fn find_byte(b: Seq<u8>, from: int, stop: u8) -> int
    decreases b.len() - from,
{
    if from < 0 || from >= b.len() {
        b.len() as int
    } else if b[from] == stop {
        from
    } else {
        find_byte(b, from + 1, stop)
    }
}

/// The first index at or after `from` that holds no decimal digit; the
/// length if none.
pub open spec fn first_non_digit(b: Seq<u8>, from: int) -> int
    decreases b.len() - from,
{
    if from < 0 || from >= b.len() {
        b.len() as int
    } else if !is_digit_byte(b[from]) {
        from
    } else {
        first_non_digit(b, from + 1)
    }
}

/// The integer `i<text>e` that starts at `pos`, and the position after it.
pub open spec fn spec_integer(b: Seq<u8>, pos: int) -> Result<(BVal, int), BencodeError> {
    let k = find_byte(b, pos + 1, 101u8);
    if k >= b.len() {
        Err(BencodeError::UnexpectedEnd)
    } else {
        match parse_i64_spec(latin1(b.subrange(pos + 1, k))) {
            Some(v) => Ok((BVal::Int(v as int), k + 1)),
            None => Err(BencodeError::InvalidInteger((pos + 1) as usize, k as usize)),
        }
    }
}

/// The byte string `<length>:<bytes>` that starts at `pos`, and the position
/// after it.
pub open spec fn spec_bytes(b: Seq<u8>, pos: int) -> Result<(Seq<u8>, int), BencodeError> {
    let k = first_non_digit(b, pos);
    if k >= b.len() {
        Err(BencodeError::UnexpectedEnd)
    } else if b[k] != 58u8 {
        Err(BencodeError::LengthNotNumeric)
    } else {
        let ds = latin1(b.subrange(pos, k));
        if ds.len() == 0 || digits_val(ds) > usize::MAX {
            Err(BencodeError::InvalidLength(pos as usize, k as usize))
        } else {
            let end = k + 1 + digits_val(ds);
            if end > usize::MAX {
                Err(BencodeError::LengthTooLong)
            } else if end > b.len() {
                Err(BencodeError::ExceedsInput)
            } else {
                Ok((b.subrange(k + 1, end), end))
            }
        }
    }
}

/// The value that starts at `pos`, and the position after it.
pub open spec fn spec_value(b: Seq<u8>, pos: int) -> Result<(BVal, int), BencodeError>
    decreases b.len() - pos, 0int,
{
    if pos < 0 || pos >= b.len() {
        Err(BencodeError::UnexpectedEnd)
    } else {
        let c = b[pos];
        if c == 105u8 {
            spec_integer(b, pos)
        } else if c == 108u8 {
            match spec_list_items(b, pos + 1) {
                Ok((items, end)) => Ok((BVal::List(items), end)),
                Err(e) => Err(e),
            }
        } else if c == 100u8 {
            match spec_dict_items(b, pos + 1) {
                Ok((items, end)) => Ok((BVal::Dict(items), end)),
                Err(e) => Err(e),
            }
        } else if is_digit_byte(c) {
            match spec_bytes(b, pos) {
                Ok((s, end)) => Ok((BVal::Bytes(s), end)),
                Err(e) => Err(e),
            }
        } else {
            Err(BencodeError::InvalidByte(c))
        }
    }
}

/// The items of a list from `pos` up to and including its closing `e`.
pub open spec fn spec_list_items(b: Seq<u8>, pos: int) -> Result<(Seq<BVal>, int), BencodeError>
    decreases b.len() - pos, 1int,
{
    if pos < 0 || pos >= b.len() {
        Err(BencodeError::UnexpectedEnd)
    } else if b[pos] == 101u8 {
        Ok((Seq::empty(), pos + 1))
    } else {
        match spec_value(b, pos) {
            Err(e) => Err(e),
            Ok((v, end)) => if end <= pos || end > b.len() {
                Err(BencodeError::UnexpectedEnd)
            } else {
                match spec_list_items(b, end) {
                    Err(e) => Err(e),
                    Ok((rest, fin)) => Ok((seq![v] + rest, fin)),
                }
            },
        }
    }
}

/// The entries of a dictionary from `pos` up to and including its closing
/// `e`.
pub open spec fn spec_dict_items(b: Seq<u8>, pos: int) -> Result<
    (Seq<(Seq<u8>, BVal)>, int),
    BencodeError,
>
    decreases b.len() - pos, 1int,
{
    if pos < 0 || pos >= b.len() {
        Err(BencodeError::UnexpectedEnd)
    } else if b[pos] == 101u8 {
        Ok((Seq::empty(), pos + 1))
    } else {
        match spec_bytes(b, pos) {
            Err(e) => Err(e),
            Ok((k, kend)) => if kend <= pos || kend > b.len() {
                Err(BencodeError::UnexpectedEnd)
            } else {
                match spec_value(b, kend) {
                    Err(e) => Err(e),
                    Ok((v, vend)) => if vend <= kend || vend > b.len() {
                        Err(BencodeError::UnexpectedEnd)
                    } else {
                        match spec_dict_items(b, vend) {
                            Err(e) => Err(e),
                            Ok((rest, fin)) => Ok((seq![(k, v)] + rest, fin)),
                        }
                    },
                }
            },
        }
    }
}

/// The key `info`.
pub open spec fn info_key() -> Seq<u8> {
    seq![105u8, 110u8, 102u8, 111u8]
}

/// Where the value of the last `info` key lies among the dictionary entries
/// that start at `pos`.
pub open spec fn spec_dict_info(b: Seq<u8>, pos: int) -> Option<(int, int)>
    decreases b.len() - pos,
{
    if pos < 0 || pos >= b.len() || b[pos] == 101u8 {
        None
    } else {
        match spec_bytes(b, pos) {
            Err(_) => None,
            Ok((k, kend)) => if kend <= pos || kend > b.len() {
                None
            } else {
                match spec_value(b, kend) {
                    Err(_) => None,
                    Ok((_, vend)) => if vend <= kend || vend > b.len() {
                        None
                    } else {
                        match spec_dict_info(b, vend) {
                            Some(r) => Some(r),
                            None => if k == info_key() {
                                Some((kend, vend))
                            } else {
                                None
                            },
                        }
                    },
                }
            },
        }
    }
}

/// Where the `info` value of a torrent lies: the last `info` entry of the
/// top-level dictionary, once the whole top-level value has parsed.
pub open spec fn spec_info_range(b: Seq<u8>) -> Option<(int, int)> {
    if spec_value(b, 0) is Ok && b[0] == 100u8 {
        spec_dict_info(b, 1)
    } else {
        None
    }
}

pub open spec fn range_model(r: Option<(usize, usize)>) -> Option<(int, int)> {
    match r {
        Some((a, b)) => Some((a as int, b as int)),
        None => None,
    }
}

/// The bytes of `b` from `from` up to `to`, read as Latin-1 characters.
pub fn latin1_range(b: &[u8], from: usize, to: usize) -> (r: Vec<char>)
    requires
        from <= to <= b@.len(),
    ensures
        r@ == latin1(b@.subrange(from as int, to as int)),
{
    let mut r: Vec<char> = Vec::new();
    let mut i = from;
    while i < to
        invariant
            from <= i <= to <= b@.len(),
            r@ == latin1(b@.subrange(from as int, i as int)),
        decreases to - i,
    {
        let c = b[i] as char;
        r.push(c);
        i = i + 1;
        proof {
            assert(latin1(b@.subrange(from as int, i as int)) =~= latin1(
                b@.subrange(from as int, i - 1),
            ).push(c));
        }
    }
    r
}

/// The value of the decimal digits `b[from..to]`, if it fits in `usize`
/// (`str::parse::<usize>` on a string of digits).
pub fn digits_usize(b: &[u8], from: usize, to: usize) -> (r: Option<usize>)
    requires
        from <= to <= b@.len(),
        forall|j: int| from <= j < to ==> is_digit_byte(#[trigger] b@[j]),
    ensures
        match r {
            Some(n) => to > from && n == digits_val(latin1(b@.subrange(from as int, to as int))),
            None => to == from || digits_val(latin1(b@.subrange(from as int, to as int)))
                > usize::MAX,
        },
{
    if from == to {
        return None;
    }
    let ghost ds = latin1(b@.subrange(from as int, to as int));
    let mut acc: usize = 0;
    let mut overflow = false;
    let mut i = from;
    while i < to
        invariant
            from <= i <= to <= b@.len(),
            forall|j: int| from <= j < to ==> is_digit_byte(#[trigger] b@[j]),
            ds == latin1(b@.subrange(from as int, to as int)),
            all_digits(ds.take(i - from)),
            !overflow ==> acc == digits_val(ds.take(i - from)),
            overflow ==> digits_val(ds.take(i - from)) > usize::MAX,
        decreases to - i,
    {
        let d = (b[i] - 48u8) as usize;
        proof {
            let t = ds.take(i - from + 1);
            assert(t.drop_last() =~= ds.take(i - from));
            assert(t.last() == b@[i as int] as char);
            assert(all_digits(t)) by {
                assert forall|j: int| 0 <= j < t.len() implies is_digit(#[trigger] t[j]) by {
                    assert(t[j] == b@[from + j] as char);
                    assert(is_digit_byte(b@[from + j]));
                }
            }
            assert(digits_val(t) == digits_val(ds.take(i - from)) * 10 + d);
            lemma_digits_val_nonneg(ds.take(i - from));
        }
        if !overflow {
            if acc > (usize::MAX - d) / 10 {
                overflow = true;
                proof {
                    assert(acc * 10 + d > usize::MAX) by (nonlinear_arith)
                        requires
                            acc > (usize::MAX - d) / 10,
                            d <= 9,
                    ;
                }
            } else {
                proof {
                    assert(acc * 10 + d <= usize::MAX) by (nonlinear_arith)
                        requires
                            acc <= (usize::MAX - d) / 10,
                            d <= 9,
                    ;
                }
                acc = acc * 10 + d;
            }
        } else {
            proof {
                lemma_digits_val_nonneg(ds.take(i - from));
            }
        }
        i = i + 1;
    }
    proof {
        assert(ds.take(i - from) =~= ds);
    }
    if overflow {
        None
    } else {
        Some(acc)
    }
}

/// The state of a bencode parse over one input: the position reached, and
/// where the value of the top-level `info` key was found.
pub struct Parser<'a> {
    pub bytes: &'a [u8],
    pub pos: usize,
    pub info_range: Option<(usize, usize)>,
}

proof fn lemma_is_info(k: Seq<u8>, is_info: bool)
    requires
        is_info == (k.len() == 4 && k[0] == 105u8 && k[1] == 110u8 && k[2] == 102u8 && k[3]
            == 111u8),
    ensures
        is_info == (k == info_key()),
{
    if is_info {
        assert(k =~= info_key());
    }
}

/// One dictionary entry `key value` read from `pos`: how the entries and the
/// `info` position from `pos` follow from those after the entry.
proof fn lemma_dict_step(b: Seq<u8>, pos: int, k: Seq<u8>, kend: int, v: BVal, vend: int)
    requires
        0 <= pos < b.len(),
        b[pos] != 101u8,
        spec_bytes(b, pos) == Ok::<_, BencodeError>((k, kend)),
        pos < kend <= b.len(),
        spec_value(b, kend) == Ok::<_, BencodeError>((v, vend)),
        kend < vend <= b.len(),
    ensures
        spec_dict_items(b, pos) == (match spec_dict_items(b, vend) {
            Ok((rest, fin)) => Ok((seq![(k, v)] + rest, fin)),
            Err(e) => Err(e),
        }),
        spec_dict_info(b, pos) == (match spec_dict_info(b, vend) {
            Some(r) => Some(r),
            None => if k == info_key() {
                Some((kend, vend))
            } else {
                None
            },
        }),
{
}

impl<'a> Parser<'a> {
    pub fn new(bytes: &'a [u8]) -> (p: Self)
        ensures
            p.bytes@ == bytes@,
            p.pos == 0,
            p.info_range is None,
    {
        Parser { bytes, pos: 0, info_range: None }
    }

    /// The byte at the current position.
    pub fn peek(&self) -> (r: Result<u8, BencodeError>)
        ensures
            r == (if self.pos < self.bytes@.len() {
                Ok(self.bytes@[self.pos as int])
            } else {
                Err(BencodeError::UnexpectedEnd)
            }),
    {
        if self.pos < self.bytes.len() {
            Ok(self.bytes[self.pos])
        } else {
            Err(BencodeError::UnexpectedEnd)
        }
    }

    /// Steps over `byte`, which must be the byte at the current position.
    pub fn expect(&mut self, byte: u8) -> (r: Result<(), BencodeError>)
        ensures
            final(self).bytes@ == old(self).bytes@,
            final(self).info_range == old(self).info_range,
            old(self).pos >= old(self).bytes@.len() ==> r == Err::<(), _>(
                BencodeError::UnexpectedEnd,
            ),
            old(self).pos < old(self).bytes@.len() && old(self).bytes@[old(self).pos as int]
                != byte ==> r == Err::<(), _>(BencodeError::Expected(byte)),
            old(self).pos < old(self).bytes@.len() && old(self).bytes@[old(self).pos as int]
                == byte ==> r is Ok && final(self).pos == old(self).pos + 1,
    {
        if self.pos >= self.bytes.len() {
            return Err(BencodeError::UnexpectedEnd);
        }
        if self.bytes[self.pos] != byte {
            return Err(BencodeError::Expected(byte));
        }
        self.pos = self.pos + 1;
        Ok(())
    }
    /// The integer `i<text>e` at the current position.
    pub fn parse_integer(&mut self) -> (r: Result<BValue, BencodeError>)
        requires
            old(self).pos < old(self).bytes@.len(),
            old(self).bytes@[old(self).pos as int] == 105u8,
        ensures
            final(self).bytes@ == old(self).bytes@,
            final(self).info_range == old(self).info_range,
            match r {
                Ok(v) => spec_integer(old(self).bytes@, old(self).pos as int) == Ok::<_, BencodeError>(
                    (v.model(), final(self).pos as int),
                ) && old(self).pos < final(self).pos <= old(self).bytes@.len(),
                Err(e) => spec_integer(old(self).bytes@, old(self).pos as int) == Err::<
                    (BVal, int),
                    _,
                >(e),
            },
    {
        let ghost b = self.bytes@;
        self.expect(105u8)?;
        let start = self.pos;
        let mut k = start;
        while k < self.bytes.len() && self.bytes[k] != 101u8
            invariant
                start <= k <= self.bytes@.len(),
                self.bytes@ == b,
                find_byte(b, start as int, 101u8) == find_byte(b, k as int, 101u8),
            decreases self.bytes@.len() - k,
        {
            k = k + 1;
        }
        if k >= self.bytes.len() {
            self.pos = k;
            return Err(BencodeError::UnexpectedEnd);
        }
        let text = latin1_range(self.bytes, start, k);
        self.pos = k;
        match parse_i64(&text) {
            Some(v) => {
                self.expect(101u8)?;
                Ok(BValue::Integer(v))
            },
            None => Err(BencodeError::InvalidInteger(start, k)),
        }
    }

    /// The byte string `<length>:<bytes>` at the current position.
    pub fn parse_bytes(&mut self) -> (r: Result<Vec<u8>, BencodeError>)
        ensures
            final(self).bytes@ == old(self).bytes@,
            final(self).info_range == old(self).info_range,
            match r {
                Ok(v) => spec_bytes(old(self).bytes@, old(self).pos as int) == Ok::<_, BencodeError>(
                    (v@, final(self).pos as int),
                ) && old(self).pos < final(self).pos <= old(self).bytes@.len(),
                Err(e) => spec_bytes(old(self).bytes@, old(self).pos as int) == Err::<
                    (Seq<u8>, int),
                    _,
                >(e),
            },
    {
        let ghost b = self.bytes@;
        let start = self.pos;
        let mut k = start;
        while k < self.bytes.len() && 48u8 <= self.bytes[k] && self.bytes[k] <= 57u8
            invariant
                start <= k,
                start <= self.bytes@.len() ==> k <= self.bytes@.len(),
                self.bytes@ == b,
                first_non_digit(b, start as int) == first_non_digit(b, k as int),
                forall|j: int| start <= j < k ==> is_digit_byte(#[trigger] b[j]),
            decreases self.bytes@.len() - k,
        {
            k = k + 1;
        }
        if k >= self.bytes.len() {
            self.pos = k;
            return Err(BencodeError::UnexpectedEnd);
        }
        if self.bytes[k] != 58u8 {
            self.pos = k;
            return Err(BencodeError::LengthNotNumeric);
        }
        let length = match digits_usize(self.bytes, start, k) {
            Some(n) => n,
            None => {
                self.pos = k;
                return Err(BencodeError::InvalidLength(start, k));
            },
        };
        self.pos = k;
        self.expect(58u8)?;
        let end = match self.pos.checked_add(length) {
            Some(e) => e,
            None => return Err(BencodeError::LengthTooLong),
        };
        if end > self.bytes.len() {
            return Err(BencodeError::ExceedsInput);
        }
        let value = slice_vec(self.bytes, self.pos, end);
        self.pos = end;
        Ok(value)
    }
    /// The value at the current position; `depth` counts the enclosing
    /// lists and dictionaries, and the `info` entry is recorded only at the
    /// top level.
    pub fn parse_value(&mut self, depth: usize) -> (r: Result<BValue, BencodeError>)
        requires
            depth <= old(self).pos,
        ensures
            final(self).bytes@ == old(self).bytes@,
            match r {
                Ok(v) => spec_value(old(self).bytes@, old(self).pos as int) == Ok::<_, BencodeError>(
                    (v.model(), final(self).pos as int),
                ) && old(self).pos < final(self).pos <= old(self).bytes@.len(),
                Err(e) => spec_value(old(self).bytes@, old(self).pos as int) == Err::<
                    (BVal, int),
                    _,
                >(e),
            },
            depth > 0 ==> final(self).info_range == old(self).info_range,
            depth == 0 && r is Ok ==> range_model(final(self).info_range) == (if old(
                self,
            ).bytes@[old(self).pos as int] == 100u8 {
                match spec_dict_info(old(self).bytes@, old(self).pos + 1) {
                    Some(x) => Some(x),
                    None => range_model(old(self).info_range),
                }
            } else {
                range_model(old(self).info_range)
            }),
        decreases old(self).bytes@.len() - old(self).pos, 1int,
    {
        let c = self.peek()?;
        if c == 105u8 {
            self.parse_integer()
        } else if c == 108u8 {
            self.parse_list(depth)
        } else if c == 100u8 {
            self.parse_dict(depth)
        } else if 48u8 <= c && c <= 57u8 {
            match self.parse_bytes() {
                Ok(v) => Ok(BValue::Bytes(v)),
                Err(e) => Err(e),
            }
        } else {
            Err(BencodeError::InvalidByte(c))
        }
    }

    /// The list `l<values>e` at the current position.
    pub fn parse_list(&mut self, depth: usize) -> (r: Result<BValue, BencodeError>)
        requires
            depth <= old(self).pos,
            old(self).pos < old(self).bytes@.len(),
            old(self).bytes@[old(self).pos as int] == 108u8,
        ensures
            final(self).bytes@ == old(self).bytes@,
            final(self).info_range == old(self).info_range,
            match r {
                Ok(v) => spec_value(old(self).bytes@, old(self).pos as int) == Ok::<_, BencodeError>(
                    (v.model(), final(self).pos as int),
                ) && old(self).pos < final(self).pos <= old(self).bytes@.len(),
                Err(e) => spec_value(old(self).bytes@, old(self).pos as int) == Err::<
                    (BVal, int),
                    _,
                >(e),
            },
        decreases old(self).bytes@.len() - old(self).pos, 0int,
    {
        let ghost b = self.bytes@;
        let ghost p0 = self.pos as int;
        self.expect(108u8)?;
        let mut values: Vec<BValue> = Vec::new();
        while self.pos < self.bytes.len() && self.bytes[self.pos] != 101u8
            invariant
                b == old(self).bytes@,
                p0 == old(self).pos,
                b[p0] == 108u8,
                self.bytes@ == b,
                self.info_range == old(self).info_range,
                p0 < self.pos <= b.len(),
                depth <= p0,
                spec_list_items(b, p0 + 1) == (match spec_list_items(b, self.pos as int) {
                    Ok((rest, fin)) => Ok((BValue::list_model(values@) + rest, fin)),
                    Err(e) => Err(e),
                }),
            decreases b.len() - self.pos,
        {
            let v = match self.parse_value(depth + 1) {
                Ok(v) => v,
                Err(e) => {
                    return Err(e);
                },
            };
            proof {
                assert(values@.push(v).drop_last() =~= values@);
                match spec_list_items(b, self.pos as int) {
                    Ok((rest, fin)) => {
                        assert(BValue::list_model(values@).push(v.model()) + rest
                            =~= BValue::list_model(values@) + (seq![v.model()] + rest));
                    },
                    Err(e) => {},
                }
            }
            values.push(v);
        }
        self.expect(101u8)?;
        proof {
            assert(BValue::list_model(values@) + Seq::<BVal>::empty() =~= BValue::list_model(
                values@,
            ));
        }
        Ok(BValue::List(values))
    }

    /// The dictionary `d<key value ...>e` at the current position.
    pub fn parse_dict(&mut self, depth: usize) -> (r: Result<BValue, BencodeError>)
        requires
            depth <= old(self).pos,
            old(self).pos < old(self).bytes@.len(),
            old(self).bytes@[old(self).pos as int] == 100u8,
        ensures
            final(self).bytes@ == old(self).bytes@,
            match r {
                Ok(v) => spec_value(old(self).bytes@, old(self).pos as int) == Ok::<_, BencodeError>(
                    (v.model(), final(self).pos as int),
                ) && old(self).pos < final(self).pos <= old(self).bytes@.len(),
                Err(e) => spec_value(old(self).bytes@, old(self).pos as int) == Err::<
                    (BVal, int),
                    _,
                >(e),
            },
            depth > 0 ==> final(self).info_range == old(self).info_range,
            depth == 0 && r is Ok ==> range_model(final(self).info_range) == (match spec_dict_info(
                old(self).bytes@,
                old(self).pos + 1,
            ) {
                Some(x) => Some(x),
                None => range_model(old(self).info_range),
            }),
        decreases old(self).bytes@.len() - old(self).pos, 0int,
    {
        let ghost b = self.bytes@;
        let ghost p0 = self.pos as int;
        self.expect(100u8)?;
        let mut values: Vec<(Vec<u8>, BValue)> = Vec::new();
        let ghost mut seen: Option<(int, int)> = range_model(old(self).info_range);
        while self.pos < self.bytes.len() && self.bytes[self.pos] != 101u8
            invariant
                b == old(self).bytes@,
                p0 == old(self).pos,
                b[p0] == 100u8,
                self.bytes@ == b,
                depth > 0 ==> self.info_range == old(self).info_range,
                depth == 0 ==> range_model(self.info_range) == seen,
                p0 < self.pos <= b.len(),
                depth <= p0,
                spec_dict_items(b, p0 + 1) == (match spec_dict_items(b, self.pos as int) {
                    Ok((rest, fin)) => Ok((BValue::dict_model(values@) + rest, fin)),
                    Err(e) => Err(e),
                }),
                (match spec_dict_info(b, p0 + 1) {
                    Some(x) => Some(x),
                    None => range_model(old(self).info_range),
                }) == (match spec_dict_info(b, self.pos as int) {
                    Some(x) => Some(x),
                    None => seen,
                }),
            decreases b.len() - self.pos,
        {
            let ghost before = self.pos as int;
            let key = match self.parse_bytes() {
                Ok(k) => k,
                Err(e) => {
                    return Err(e);
                },
            };
            let value_start = self.pos;
            let value = match self.parse_value(depth + 1) {
                Ok(v) => v,
                Err(e) => {
                    return Err(e);
                },
            };
            let is_info = key.len() == 4 && key[0] == 105u8 && key[1] == 110u8 && key[2] == 102u8
                && key[3] == 111u8;
            proof {
                lemma_is_info(key@, is_info);
            }
            if depth == 0 && is_info {
                self.info_range = Some((value_start, self.pos));
            }
            proof {
                if is_info {
                    seen = Some((value_start as int, self.pos as int));
                }
                lemma_dict_step(b, before, key@, value_start as int, value.model(), self.pos as int);
                assert(values@.push((key, value)).drop_last() =~= values@);
                match spec_dict_items(b, self.pos as int) {
                    Ok((rest, fin)) => {
                        assert(BValue::dict_model(values@).push((key@, value.model())) + rest
                            =~= BValue::dict_model(values@) + (seq![(key@, value.model())] + rest));
                    },
                    Err(e) => {},
                }
            }
            values.push((key, value));
        }
        self.expect(101u8)?;
        proof {
            assert(BValue::dict_model(values@) + Seq::<(Seq<u8>, BVal)>::empty()
                =~= BValue::dict_model(values@));
        }
        Ok(BValue::Dict(values))
    }
}

impl BValue {
    pub proof fn lemma_list_model(items: Seq<BValue>)
        ensures
            BValue::list_model(items).len() == items.len(),
            forall|i: int|
                0 <= i < items.len() ==> #[trigger] BValue::list_model(items)[i] == items[i].model(),
        decreases items.len(),
    {
        if items.len() > 0 {
            BValue::lemma_list_model(items.drop_last());
        }
    }

    pub proof fn lemma_dict_model(items: Seq<(Vec<u8>, BValue)>)
        ensures
            BValue::dict_model(items).len() == items.len(),
            forall|i: int|
                0 <= i < items.len() ==> #[trigger] BValue::dict_model(items)[i] == (
                    items[i].0@,
                    items[i].1.model(),
                ),
        decreases items.len(),
    {
        if items.len() > 0 {
            BValue::lemma_dict_model(items.drop_last());
        }
    }
}

/// The value of the first entry of `d` whose key is `key`.
pub open spec fn dict_get(d: Seq<(Seq<u8>, BVal)>, key: Seq<u8>) -> Option<BVal>
    decreases d.len(),
{
    if d.len() == 0 {
        None
    } else if d[0].0 == key {
        Some(d[0].1)
    } else {
        dict_get(d.drop_first(), key)
    }
}

/// The value of the first entry of `dict` whose key is `key`.
pub fn dict_value<'b>(dict: &'b [(Vec<u8>, BValue)], key: &[u8]) -> (r: Option<&'b BValue>)
    ensures
        match r {
            Some(v) => dict_get(BValue::dict_model(dict@), key@) == Some(v.model()),
            None => dict_get(BValue::dict_model(dict@), key@) is None,
        },
{
    let ghost d = BValue::dict_model(dict@);
    proof {
        BValue::lemma_dict_model(dict@);
        assert(d.subrange(0, d.len() as int) =~= d);
    }
    let mut i: usize = 0;
    while i < dict.len()
        invariant
            i <= dict@.len(),
            d == BValue::dict_model(dict@),
            d.len() == dict@.len(),
            forall|j: int| 0 <= j < dict@.len() ==> #[trigger] d[j] == (dict@[j].0@, dict@[j].1.model()),
            dict_get(d, key@) == dict_get(d.subrange(i as int, d.len() as int), key@),
        decreases dict.len() - i,
    {
        let ghost rest = d.subrange(i as int, d.len() as int);
        assert(rest[0] == d[i as int]);
        assert(rest.drop_first() =~= d.subrange(i + 1, d.len() as int));
        if crate::text::bytes_eq(dict[i].0.as_slice(), key) {
            return Some(&dict[i].1);
        }
        i = i + 1;
    }
    proof {
        assert(d.subrange(i as int, d.len() as int).len() == 0);
    }
    None
}

/// What `String::from_utf8_lossy` makes of a byte string: its UTF-8 text, with
/// each invalid sequence replaced by U+FFFD.
pub uninterp spec fn utf8_lossy(bytes: Seq<u8>) -> Seq<char>;

/// `String::from_utf8_lossy`: the text of a byte string, as `utf8_lossy`
/// names it; on valid UTF-8 that is the decoded text.
#[verifier::external_body]
pub fn bytes_to_string(bytes: &[u8]) -> (s: String)
    ensures
        s@ == utf8_lossy(bytes@),
        valid_utf8(bytes@) ==> s@ == decode_utf8(bytes@),
{
    String::from_utf8_lossy(bytes).into_owned()
}

/// One file of a torrent: its 1-based position, its path inside the torrent
/// and its size in bytes.
pub struct TorrentFileEntry {
    pub index: i64,
    pub path: String,
    pub length: i64,
}

/// Why the metainfo of a torrent cannot be read.
pub enum TorrentError {
    /// The input is not bencode; the text says why.
    Bencode(String),
    RootNotDict,
    InfoMissing,
    InfoNotDict,
    FilesNotList,
    EntryNotDict,
    PathMissing,
    PathNotList,
    PathPartNotBytes,
    /// A file's position does not fit in `i64`.
    IndexOutOfRange,
    /// The value of the key is not an integer.
    NotInteger(Vec<u8>),
    /// The value of the key is not a byte string.
    NotBytes(Vec<u8>),
    /// The key is missing.
    Missing(Vec<u8>),
}

/// A `TorrentError` with its key as a sequence.
pub enum TorrentErrorView {
    Bencode(Seq<char>),
    RootNotDict,
    InfoMissing,
    InfoNotDict,
    FilesNotList,
    EntryNotDict,
    PathMissing,
    PathNotList,
    PathPartNotBytes,
    IndexOutOfRange,
    NotInteger(Seq<u8>),
    NotBytes(Seq<u8>),
    Missing(Seq<u8>),
}

impl View for TorrentError {
    type V = TorrentErrorView;

    open spec fn view(&self) -> TorrentErrorView {
        match self {
            TorrentError::Bencode(m) => TorrentErrorView::Bencode(m@),
            TorrentError::RootNotDict => TorrentErrorView::RootNotDict,
            TorrentError::InfoMissing => TorrentErrorView::InfoMissing,
            TorrentError::InfoNotDict => TorrentErrorView::InfoNotDict,
            TorrentError::FilesNotList => TorrentErrorView::FilesNotList,
            TorrentError::EntryNotDict => TorrentErrorView::EntryNotDict,
            TorrentError::PathMissing => TorrentErrorView::PathMissing,
            TorrentError::PathNotList => TorrentErrorView::PathNotList,
            TorrentError::PathPartNotBytes => TorrentErrorView::PathPartNotBytes,
            TorrentError::IndexOutOfRange => TorrentErrorView::IndexOutOfRange,
            TorrentError::NotInteger(k) => TorrentErrorView::NotInteger(k@),
            TorrentError::NotBytes(k) => TorrentErrorView::NotBytes(k@),
            TorrentError::Missing(k) => TorrentErrorView::Missing(k@),
        }
    }
}

/// The text of a torrent error; keys are shown as text.
pub open spec fn spec_torrent_message(e: TorrentErrorView) -> Seq<char> {
    match e {
        TorrentErrorView::Bencode(m) => m,
        TorrentErrorView::RootNotDict => "torrent root must be a dictionary"@,
        TorrentErrorView::InfoMissing => "torrent info is missing"@,
        TorrentErrorView::InfoNotDict => "torrent info must be a dictionary"@,
        TorrentErrorView::FilesNotList => "torrent files must be a list"@,
        TorrentErrorView::EntryNotDict => "torrent file entry must be a dictionary"@,
        TorrentErrorView::PathMissing => "torrent file path is missing"@,
        TorrentErrorView::PathNotList => "torrent file path must be a list"@,
        TorrentErrorView::PathPartNotBytes => "torrent file path part must be bytes"@,
        TorrentErrorView::IndexOutOfRange => "out of range integral type conversion attempted"@,
        TorrentErrorView::NotInteger(k) => "torrent "@ + utf8_lossy(k) + " must be an integer"@,
        TorrentErrorView::NotBytes(k) => "torrent "@ + utf8_lossy(k) + " must be bytes"@,
        TorrentErrorView::Missing(k) => "torrent "@ + utf8_lossy(k) + " is missing"@,
    }
}

fn key_message(key: &[u8], tail: &str) -> (r: String)
    ensures
        r@ == "torrent "@ + utf8_lossy(key@) + tail@,
{
    let mut v = crate::text::chars_of("torrent ");
    let k = bytes_to_string(key);
    crate::text::extend_vec(&mut v, &crate::text::chars_of(k.as_str()));
    crate::text::extend_vec(&mut v, &crate::text::chars_of(tail));
    crate::text::string_of(&v)
}

impl TorrentError {
    pub fn message(&self) -> (r: String)
        ensures
            r@ == spec_torrent_message(self@),
    {
        match self {
            TorrentError::Bencode(m) => crate::text::string_of(&crate::text::chars_of(m.as_str())),
            TorrentError::RootNotDict => "torrent root must be a dictionary".to_owned(),
            TorrentError::InfoMissing => "torrent info is missing".to_owned(),
            TorrentError::InfoNotDict => "torrent info must be a dictionary".to_owned(),
            TorrentError::FilesNotList => "torrent files must be a list".to_owned(),
            TorrentError::EntryNotDict => "torrent file entry must be a dictionary".to_owned(),
            TorrentError::PathMissing => "torrent file path is missing".to_owned(),
            TorrentError::PathNotList => "torrent file path must be a list".to_owned(),
            TorrentError::PathPartNotBytes => "torrent file path part must be bytes".to_owned(),
            TorrentError::IndexOutOfRange => "out of range integral type conversion attempted".to_owned(),
            TorrentError::NotInteger(k) => key_message(k.as_slice(), " must be an integer"),
            TorrentError::NotBytes(k) => key_message(k.as_slice(), " must be bytes"),
            TorrentError::Missing(k) => key_message(k.as_slice(), " is missing"),
        }
    }
}

/// A torrent file entry as plain values.
pub struct FileEntryView {
    pub index: int,
    pub path: Seq<char>,
    pub length: int,
}

impl View for TorrentFileEntry {
    type V = FileEntryView;

    open spec fn view(&self) -> FileEntryView {
        FileEntryView { index: self.index as int, path: self.path@, length: self.length as int }
    }
}

pub open spec fn entries_view(v: Seq<TorrentFileEntry>) -> Seq<FileEntryView> {
    v.map_values(|e: TorrentFileEntry| e@)
}

pub open spec fn length_key() -> Seq<u8> {
    seq![108u8, 101u8, 110u8, 103u8, 116u8, 104u8]
}

pub open spec fn name_key() -> Seq<u8> {
    seq![110u8, 97u8, 109u8, 101u8]
}

pub open spec fn path_key() -> Seq<u8> {
    seq![112u8, 97u8, 116u8, 104u8]
}

pub open spec fn files_key() -> Seq<u8> {
    seq![102u8, 105u8, 108u8, 101u8, 115u8]
}

/// The integer under `key`.
pub open spec fn spec_required_integer(d: Seq<(Seq<u8>, BVal)>, key: Seq<u8>) -> Result<
    int,
    TorrentErrorView,
> {
    match dict_get(d, key) {
        Some(BVal::Int(v)) => Ok(v),
        Some(_) => Err(TorrentErrorView::NotInteger(key)),
        None => Err(TorrentErrorView::Missing(key)),
    }
}

/// The byte string under `key`.
pub open spec fn spec_required_bytes(d: Seq<(Seq<u8>, BVal)>, key: Seq<u8>) -> Result<
    Seq<u8>,
    TorrentErrorView,
> {
    match dict_get(d, key) {
        Some(BVal::Bytes(v)) => Ok(v),
        Some(_) => Err(TorrentErrorView::NotBytes(key)),
        None => Err(TorrentErrorView::Missing(key)),
    }
}

/// The parts joined with `/` between them.
pub open spec fn join_slash(parts: Seq<Seq<char>>) -> Seq<char>
    decreases parts.len(),
{
    if parts.len() == 0 {
        Seq::empty()
    } else if parts.len() == 1 {
        parts[0]
    } else {
        join_slash(parts.drop_last()) + seq!['/'] + parts.last()
    }
}

/// Where part `i` starts when the parts are written one after another with
/// one character between each two: the lengths of the parts before it,
/// plus one for each of them.
pub open spec fn part_offset(parts: Seq<Seq<char>>, i: int) -> int
    decreases i,
{
    if i <= 0 {
        0
    } else {
        part_offset(parts, i - 1) + parts[i - 1].len() + 1
    }
}

proof fn lemma_part_offset_prefix(parts: Seq<Seq<char>>, n: int, i: int)
    requires
        0 <= i <= n <= parts.len(),
    ensures
        part_offset(parts.take(n), i) == part_offset(parts, i),
    decreases i,
{
    if i > 0 {
        lemma_part_offset_prefix(parts, n, i - 1);
        assert(parts.take(n)[i - 1] == parts[i - 1]);
    }
}

proof fn lemma_part_offset_grows(parts: Seq<Seq<char>>, i: int, j: int)
    requires
        0 <= i <= j,
    ensures
        part_offset(parts, i) + (j - i) <= part_offset(parts, j),
    decreases j,
{
    if j > i {
        lemma_part_offset_grows(parts, i, j - 1);
    }
}

/// A path written from its parts keeps every part, in order, with one `/`
/// between consecutive parts and nothing else: adding a part adds `/` and
/// that part at the end; the length is the sum of the parts' lengths plus
/// one less than their number; each part stands at its offset; and a `/`
/// stands right after each part but the last.
pub proof fn lemma_join_slash(parts: Seq<Seq<char>>)
    requires
        parts.len() >= 1,
    ensures
        parts.len() >= 2 ==> join_slash(parts) == join_slash(parts.drop_last()) + seq!['/'] + parts.last(),
        join_slash(parts).len() == part_offset(parts, parts.len() as int) - 1,
        forall|i: int, k: int|
            0 <= i < parts.len() && 0 <= k < parts[i].len() ==> join_slash(parts)[part_offset(parts, i) + k]
                == #[trigger] parts[i][k],
        forall|i: int|
            0 <= i < parts.len() - 1 ==> join_slash(parts)[#[trigger] part_offset(parts, i + 1) - 1] == '/',
    decreases parts.len(),
{
    let n = parts.len() as int;
    if n == 1 {
        assert forall|i: int, k: int| 0 <= i < parts.len() && 0 <= k < parts[i].len() implies join_slash(parts)[part_offset(parts, i) + k]
            == #[trigger] parts[i][k] by {
            assert(i == 0);
        }
    } else {
        let init = parts.drop_last();
        lemma_join_slash(init);
        let a = join_slash(init);
        let last = parts.last();
        let w = a + seq!['/'] + last;
        assert(join_slash(parts) == w);
        lemma_part_offset_prefix(parts, n - 1, n - 1);
        assert(init == parts.take(n - 1));
        assert(part_offset(init, n - 1) == part_offset(parts, n - 1));
        assert(a.len() == part_offset(parts, n - 1) - 1);
        assert forall|i: int, k: int| 0 <= i < parts.len() && 0 <= k < parts[i].len() implies w[part_offset(parts, i) + k]
            == #[trigger] parts[i][k] by {
            if i < n - 1 {
                lemma_part_offset_prefix(parts, n - 1, i);
                assert(part_offset(init, i) == part_offset(parts, i));
                lemma_part_offset_grows(parts, 0, i);
                assert(init[i] == parts[i]);
                lemma_part_offset_grows(parts, i + 1, n - 1);
                assert(part_offset(parts, i + 1) == part_offset(parts, i) + parts[i].len() + 1);
                assert(part_offset(parts, i) + k < a.len());
                assert(init[i][k] == parts[i][k]);
                assert(a[part_offset(init, i) + k] == init[i][k]);
                assert(w[part_offset(parts, i) + k] == a[part_offset(parts, i) + k]);
            } else {
                assert(parts[i] == last);
                assert(w[part_offset(parts, i) + k] == last[k]);
            }
        }
        assert forall|i: int| 0 <= i < parts.len() - 1 implies w[#[trigger] part_offset(parts, i + 1) - 1] == '/' by {
            if i < n - 2 {
                lemma_part_offset_prefix(parts, n - 1, i + 1);
                assert(part_offset(init, i + 1) == part_offset(parts, i + 1));
                lemma_part_offset_grows(parts, 0, i + 1);
                lemma_part_offset_grows(parts, i + 2, n - 1);
                assert(part_offset(parts, i + 2) == part_offset(parts, i + 1) + parts[i + 1].len() + 1);
                assert(init[i + 1] == parts[i + 1]);
                assert(part_offset(init, i + 1) - 1 < a.len());
                assert(a[part_offset(init, i + 1) - 1] == '/');
                assert(w[part_offset(parts, i + 1) - 1] == a[part_offset(parts, i + 1) - 1]);
            } else {
                assert(w[a.len() as int] == '/');
            }
        }
    }
}

/// The path of a file entry: its parts, as text, joined with `/`.
pub open spec fn spec_required_path(d: Seq<(Seq<u8>, BVal)>) -> Result<Seq<char>, TorrentErrorView> {
    match dict_get(d, path_key()) {
        None => Err(TorrentErrorView::PathMissing),
        Some(BVal::List(parts)) => if forall|i: int| 0 <= i < parts.len() ==> (#[trigger] parts[i]) is Bytes {
            Ok(join_slash(parts.map_values(|p: BVal| utf8_lossy(p->Bytes_0))))
        } else {
            Err(TorrentErrorView::PathPartNotBytes)
        },
        Some(_) => Err(TorrentErrorView::PathNotList),
    }
}

/// The path of a file entry whose `path` is a non-empty list of byte
/// strings holds every part's text, in order, each at its offset, with a
/// `/` after each part but the last and nothing more.
pub proof fn lemma_required_path_parts(d: Seq<(Seq<u8>, BVal)>, parts: Seq<BVal>)
    requires
        dict_get(d, path_key()) == Some(BVal::List(parts)),
        parts.len() >= 1,
        forall|i: int| 0 <= i < parts.len() ==> (#[trigger] parts[i]) is Bytes,
    ensures
        ({
            let texts = parts.map_values(|p: BVal| utf8_lossy(p->Bytes_0));
            &&& spec_required_path(d) is Ok
            &&& spec_required_path(d)->Ok_0.len() == part_offset(texts, texts.len() as int) - 1
            &&& forall|i: int, k: int|
                0 <= i < texts.len() && 0 <= k < texts[i].len() ==> spec_required_path(d)->Ok_0[part_offset(
                    texts,
                    i,
                ) + k] == #[trigger] texts[i][k]
            &&& forall|i: int|
                0 <= i < texts.len() - 1 ==> spec_required_path(d)->Ok_0[#[trigger] part_offset(texts, i + 1) - 1]
                    == '/'
        }),
{
    let texts = parts.map_values(|p: BVal| utf8_lossy(p->Bytes_0));
    lemma_join_slash(texts);
}

/// The file entry at 1-based `index`: its length, then its path.
pub open spec fn spec_file_entry(index: int, file: BVal) -> Result<FileEntryView, TorrentErrorView> {
    match file {
        BVal::Dict(d) => match spec_required_integer(d, length_key()) {
            Err(e) => Err(e),
            Ok(length) => match spec_required_path(d) {
                Err(e) => Err(e),
                Ok(path) => if index > i64::MAX {
                Err(TorrentErrorView::IndexOutOfRange)
            } else {
                Ok(FileEntryView { index, path, length })
            },
            },
        },
        _ => Err(TorrentErrorView::EntryNotDict),
    }
}

/// The entries of the files from position `i` on; the first failing entry
/// fails them all.
pub open spec fn spec_file_entries(files: Seq<BVal>, i: int) -> Result<Seq<FileEntryView>, TorrentErrorView>
    decreases files.len() - i,
{
    if i < 0 || i >= files.len() {
        Ok(Seq::empty())
    } else {
        match spec_file_entry(i + 1, files[i]) {
            Err(e) => Err(e),
            Ok(entry) => match spec_file_entries(files, i + 1) {
                Err(e) => Err(e),
                Ok(rest) => Ok(seq![entry] + rest),
            },
        }
    }
}

/// The files of a torrent: the `files` list of its `info` dictionary, or a
/// single file named by `name` with size `length`.
pub open spec fn spec_torrent_files(b: Seq<u8>) -> Result<Seq<FileEntryView>, TorrentErrorView> {
    match spec_value(b, 0) {
        Err(e) => Err(TorrentErrorView::Bencode(spec_bencode_message(b, e))),
        Ok((BVal::Dict(root), _)) => match dict_get(root, info_key()) {
            None => Err(TorrentErrorView::InfoMissing),
            Some(BVal::Dict(info)) => match dict_get(info, files_key()) {
                Some(BVal::List(files)) => spec_file_entries(files, 0),
                Some(_) => Err(TorrentErrorView::FilesNotList),
                None => match spec_required_bytes(info, name_key()) {
                    Err(e) => Err(e),
                    Ok(name) => match spec_required_integer(info, length_key()) {
                        Err(e) => Err(e),
                        Ok(length) => Ok(
                            seq![FileEntryView { index: 1, path: utf8_lossy(name), length }],
                        ),
                    },
                },
            },
            Some(_) => Err(TorrentErrorView::InfoNotDict),
        },
        Ok(_) => Err(TorrentErrorView::RootNotDict),
    }
}

/// A copy of the bytes.
pub fn bytes_vec(b: &[u8]) -> (r: Vec<u8>)
    ensures
        r@ == b@,
{
    let r = slice_vec(b, 0, b.len());
    proof {
        assert(b@.subrange(0, b@.len() as int) =~= b@);
    }
    r
}

/// The integer under `key` in `dict`.
pub fn required_integer(dict: &[(Vec<u8>, BValue)], key: &[u8]) -> (r: Result<i64, TorrentError>)
    ensures
        match r {
            Ok(v) => spec_required_integer(BValue::dict_model(dict@), key@) == Ok::<_, TorrentErrorView>(v as int),
            Err(e) => spec_required_integer(BValue::dict_model(dict@), key@) == Err::<int, _>(e@),
        },
{
    match dict_value(dict, key) {
        Some(BValue::Integer(value)) => Ok(*value),
        Some(_) => Err(TorrentError::NotInteger(bytes_vec(key))),
        None => Err(TorrentError::Missing(bytes_vec(key))),
    }
}

/// The byte string under `key` in `dict`.
pub fn required_bytes<'b>(dict: &'b [(Vec<u8>, BValue)], key: &[u8]) -> (r: Result<&'b [u8], TorrentError>)
    ensures
        match r {
            Ok(v) => spec_required_bytes(BValue::dict_model(dict@), key@) == Ok::<_, TorrentErrorView>(v@),
            Err(e) => spec_required_bytes(BValue::dict_model(dict@), key@) == Err::<Seq<u8>, _>(e@),
        },
{
    match dict_value(dict, key) {
        Some(BValue::Bytes(value)) => Ok(value.as_slice()),
        Some(_) => Err(TorrentError::NotBytes(bytes_vec(key))),
        None => Err(TorrentError::Missing(bytes_vec(key))),
    }
}

/// The texts joined with `/` between them.
pub fn join_with_slash(parts: &[String]) -> (r: String)
    ensures
        r@ == join_slash(parts@.map_values(|p: String| p@)),
{
    let ghost views = parts@.map_values(|p: String| p@);
    let mut out: Vec<char> = Vec::new();
    let mut i: usize = 0;
    while i < parts.len()
        invariant
            i <= parts@.len(),
            views == parts@.map_values(|p: String| p@),
            out@ == join_slash(views.take(i as int)),
        decreases parts.len() - i,
    {
        if i > 0 {
            out.push('/');
        }
        let part = crate::text::chars_of(parts[i].as_str());
        crate::text::extend_vec(&mut out, &part);
        proof {
            let t = views.take(i + 1);
            assert(t.drop_last() =~= views.take(i as int));
            assert(t.last() == parts@[i as int]@);
            if i == 0 {
                assert(out@ =~= join_slash(t));
            } else {
                assert(out@ =~= join_slash(t));
            }
        }
        i = i + 1;
    }
    proof {
        assert(views.take(i as int) =~= views);
    }
    crate::text::string_of(&out)
}

/// The path of a file entry: its parts, as text, joined with `/`.
pub fn required_path(dict: &[(Vec<u8>, BValue)]) -> (r: Result<String, TorrentError>)
    ensures
        match r {
            Ok(p) => spec_required_path(BValue::dict_model(dict@)) == Ok::<_, TorrentErrorView>(p@),
            Err(e) => spec_required_path(BValue::dict_model(dict@)) == Err::<Seq<char>, _>(e@),
        },
{
    let key: Vec<u8> = vec![112u8, 97u8, 116u8, 104u8];
    proof {
        assert(key@ =~= path_key());
    }
    let path = match dict_value(dict, key.as_slice()) {
        Some(p) => p,
        None => return Err(TorrentError::PathMissing),
    };
    let parts = match path {
        BValue::List(parts) => parts,
        _ => return Err(TorrentError::PathNotList),
    };
    let ghost m = BValue::list_model(parts@);
    proof {
        BValue::lemma_list_model(parts@);
        assert(path.model() == BVal::List(m));
    }
    let mut texts: Vec<String> = Vec::new();
    let mut i: usize = 0;
    while i < parts.len()
        invariant
            i <= parts@.len(),
            m == BValue::list_model(parts@),
            dict_get(BValue::dict_model(dict@), path_key()) == Some(BVal::List(m)),
            m.len() == parts@.len(),
            forall|j: int| 0 <= j < parts@.len() ==> #[trigger] m[j] == parts@[j].model(),
            texts@.len() == i,
            forall|j: int| 0 <= j < i ==> (#[trigger] m[j]) is Bytes,
            forall|j: int| 0 <= j < i ==> (#[trigger] texts@[j])@ == utf8_lossy(m[j]->Bytes_0),
        decreases parts.len() - i,
    {
        match &parts[i] {
            BValue::Bytes(bytes) => {
                let t = bytes_to_string(bytes.as_slice());
                texts.push(t);
            },
            _ => {
                proof {
                    assert(!(m[i as int] is Bytes));
                    assert(!(forall|j: int| 0 <= j < m.len() ==> (#[trigger] m[j]) is Bytes));
                }
                return Err(TorrentError::PathPartNotBytes);
            },
        }
        i = i + 1;
    }
    let joined = join_with_slash(&texts);
    proof {
        assert(texts@.map_values(|p: String| p@) =~= m.map_values(|p: BVal| utf8_lossy(p->Bytes_0)));
    }
    Ok(joined)
}

/// The file entry at 1-based position `index`: its length, then its path.
pub fn torrent_file_entry(index: usize, file: &BValue) -> (r: Result<TorrentFileEntry, TorrentError>)
    ensures
        match r {
            Ok(e) => spec_file_entry(index as int, file.model()) == Ok::<_, TorrentErrorView>(e@),
            Err(e) => spec_file_entry(index as int, file.model()) == Err::<FileEntryView, _>(e@),
        },
{
    let dict = match file {
        BValue::Dict(d) => d,
        _ => return Err(TorrentError::EntryNotDict),
    };
    let key: Vec<u8> = vec![108u8, 101u8, 110u8, 103u8, 116u8, 104u8];
    proof {
        assert(key@ =~= length_key());
    }
    let length = match required_integer(dict.as_slice(), key.as_slice()) {
        Ok(l) => l,
        Err(e) => return Err(e),
    };
    let path = match required_path(dict.as_slice()) {
        Ok(p) => p,
        Err(e) => return Err(e),
    };
    if index as u64 > 9223372036854775807u64 {
        return Err(TorrentError::IndexOutOfRange);
    }
    Ok(TorrentFileEntry { index: index as i64, path, length })
}

/// The files of a torrent, read from its metainfo bytes.
pub fn torrent_files(bytes: &[u8]) -> (r: Result<Vec<TorrentFileEntry>, TorrentError>)
    ensures
        match r {
            Ok(v) => spec_torrent_files(bytes@) == Ok::<_, TorrentErrorView>(entries_view(v@)),
            Err(e) => spec_torrent_files(bytes@) == Err::<Seq<FileEntryView>, _>(e@),
        },
{
    let mut parser = Parser::new(bytes);
    let root = match parser.parse_value(0) {
        Ok(v) => v,
        Err(e) => return Err(TorrentError::Bencode(e.message(bytes))),
    };
    let root = match root {
        BValue::Dict(d) => d,
        _ => return Err(TorrentError::RootNotDict),
    };
    let info_k: Vec<u8> = vec![105u8, 110u8, 102u8, 111u8];
    let files_k: Vec<u8> = vec![102u8, 105u8, 108u8, 101u8, 115u8];
    let name_k: Vec<u8> = vec![110u8, 97u8, 109u8, 101u8];
    let length_k: Vec<u8> = vec![108u8, 101u8, 110u8, 103u8, 116u8, 104u8];
    proof {
        assert(info_k@ =~= info_key());
        assert(files_k@ =~= files_key());
        assert(name_k@ =~= name_key());
        assert(length_k@ =~= length_key());
    }
    let info = match dict_value(root.as_slice(), info_k.as_slice()) {
        Some(v) => v,
        None => return Err(TorrentError::InfoMissing),
    };
    let info = match info {
        BValue::Dict(d) => d,
        _ => return Err(TorrentError::InfoNotDict),
    };
    match dict_value(info.as_slice(), files_k.as_slice()) {
        Some(files) => {
            let files = match files {
                BValue::List(f) => f,
                _ => return Err(TorrentError::FilesNotList),
            };
            let ghost m = BValue::list_model(files@);
            proof {
                BValue::lemma_list_model(files@);
                assert(spec_torrent_files(bytes@) == spec_file_entries(m, 0));
            }
            let mut out: Vec<TorrentFileEntry> = Vec::new();
            let mut i: usize = 0;
            while i < files.len()
                invariant
                    i <= files@.len(),
                    m == BValue::list_model(files@),
                    m.len() == files@.len(),
                    forall|j: int| 0 <= j < files@.len() ==> #[trigger] m[j] == files@[j].model(),
                    spec_torrent_files(bytes@) == spec_file_entries(m, 0),
                    spec_file_entries(m, 0) == (match spec_file_entries(m, i as int) {
                        Ok(rest) => Ok(entries_view(out@) + rest),
                        Err(e) => Err(e),
                    }),
                decreases files.len() - i,
            {
                let entry = match torrent_file_entry(i + 1, &files[i]) {
                    Ok(e) => e,
                    Err(e) => return Err(e),
                };
                proof {
                    assert(entries_view(out@.push(entry)) =~= entries_view(out@).push(entry@));
                    match spec_file_entries(m, i + 1) {
                        Ok(rest) => {
                            assert(entries_view(out@).push(entry@) + rest =~= entries_view(out@) + (
                            seq![entry@] + rest));
                        },
                        Err(e) => {},
                    }
                }
                out.push(entry);
                i = i + 1;
            }
            proof {
                assert(entries_view(out@) + Seq::<FileEntryView>::empty() =~= entries_view(out@));
            }
            Ok(out)
        },
        None => {
            let name = match required_bytes(info.as_slice(), name_k.as_slice()) {
                Ok(n) => bytes_to_string(n),
                Err(e) => return Err(e),
            };
            let length = match required_integer(info.as_slice(), length_k.as_slice()) {
                Ok(l) => l,
                Err(e) => return Err(e),
            };
            let mut out: Vec<TorrentFileEntry> = Vec::new();
            out.push(TorrentFileEntry { index: 1, path: name, length });
            proof {
                assert(entries_view(out@) =~= seq![FileEntryView { index: 1, path: name@, length: length as int }]);
            }
            Ok(out)
        },
    }
}

/// The lowercase hexadecimal digit of `d` (below 16).
pub open spec fn hex_digit(d: int) -> char {
    if d < 10 {
        ((48 + d) as u8) as char
    } else {
        ((87 + d) as u8) as char
    }
}

/// Each byte as two lowercase hexadecimal digits (`format!("{:02x}")`).
pub open spec fn hex_lower(bytes: Seq<u8>) -> Seq<char>
    decreases bytes.len(),
{
    if bytes.len() == 0 {
        Seq::empty()
    } else {
        hex_lower(bytes.drop_last()) + seq![
            hex_digit(bytes.last() as int / 16),
            hex_digit(bytes.last() as int % 16),
        ]
    }
}

fn hex_char(d: u8) -> (c: char)
    requires
        d < 16,
    ensures
        c == hex_digit(d as int),
{
    if d < 10 {
        (48u8 + d) as char
    } else {
        (87u8 + d) as char
    }
}

/// The bytes as lowercase hexadecimal text, two digits a byte.
pub fn hex_lower_string(bytes: &[u8]) -> (r: String)
    ensures
        r@ == hex_lower(bytes@),
{
    let mut out: Vec<char> = Vec::new();
    let mut i: usize = 0;
    while i < bytes.len()
        invariant
            i <= bytes@.len(),
            out@ == hex_lower(bytes@.take(i as int)),
        decreases bytes.len() - i,
    {
        let b = bytes[i];
        out.push(hex_char(b / 16));
        out.push(hex_char(b % 16));
        proof {
            let t = bytes@.take(i + 1);
            assert(t.drop_last() =~= bytes@.take(i as int));
            assert(out@ =~= hex_lower(t));
        }
        i = i + 1;
    }
    proof {
        assert(bytes@.take(i as int) =~= bytes@);
    }
    crate::text::string_of(&out)
}

/// The SHA-1 digest of `data`, as `sha1_smol` computes it.
pub uninterp spec fn sha1_digest(data: Seq<u8>) -> Seq<u8>;

/// `sha1_smol::Sha1::from(data).digest().bytes()`: the 20-byte SHA-1 digest
/// of `data`, named `sha1_digest`.
#[verifier::external_body]
fn sha1_bytes(data: &[u8]) -> (d: Vec<u8>)
    ensures
        d@ == sha1_digest(data@),
        d@.len() == 20,
{
    sha1_smol::Sha1::from(data).digest().bytes().to_vec()
}

/// The SHA-1 digest of `data` in lowercase hexadecimal.
pub fn sha1_hex(data: &[u8]) -> (r: String)
    ensures
        r@ == hex_lower(sha1_digest(data@)),
        r@.len() == 40,
{
    let d = sha1_bytes(data);
    let r = hex_lower_string(&d);
    proof {
        lemma_hex_lower_len(d@);
    }
    r
}

pub proof fn lemma_hex_lower_len(b: Seq<u8>)
    ensures
        hex_lower(b).len() == 2 * b.len(),
    decreases b.len(),
{
    if b.len() > 0 {
        lemma_hex_lower_len(b.drop_last());
    }
}

/// The info hash of a torrent: the SHA-1 digest, in lowercase hexadecimal,
/// of the bytes of its `info` value.
pub open spec fn spec_torrent_info_hash(b: Seq<u8>) -> Result<Seq<char>, TorrentErrorView> {
    match spec_value(b, 0) {
        Err(e) => Err(TorrentErrorView::Bencode(spec_bencode_message(b, e))),
        Ok(_) => match spec_info_range(b) {
            None => Err(TorrentErrorView::InfoMissing),
            Some((start, end)) => Ok(hex_lower(sha1_digest(b.subrange(start, end)))),
        },
    }
}

/// The info hash of a torrent, read from its metainfo bytes.
pub fn torrent_info_hash(bytes: &[u8]) -> (r: Result<String, TorrentError>)
    ensures
        match r {
            Ok(h) => spec_torrent_info_hash(bytes@) == Ok::<_, TorrentErrorView>(h@),
            Err(e) => spec_torrent_info_hash(bytes@) == Err::<Seq<char>, _>(e@),
        },
{
    let mut parser = Parser::new(bytes);
    match parser.parse_value(0) {
        Ok(_) => {},
        Err(e) => return Err(TorrentError::Bencode(e.message(bytes))),
    }
    match parser.info_range {
        Some((start, end)) => {
            proof {
                lemma_info_range_bounds(bytes@);
            }
            let info = slice_vec(bytes, start, end);
            Ok(sha1_hex(&info))
        },
        None => Err(TorrentError::InfoMissing),
    }
}

/// The `info` range of a parsed torrent lies inside it, and the value that
/// starts there ends exactly there.
pub proof fn lemma_info_range_bounds(b: Seq<u8>)
    ensures
        spec_info_range(b) matches Some((s, e)) ==> 0 < s < e <= b.len() && (spec_value(b, s) matches Ok((_, end)) && end == e),
{
    if spec_value(b, 0) is Ok && b[0] == 100u8 {
        lemma_dict_info_bounds(b, 1);
    }
}

proof fn lemma_dict_info_bounds(b: Seq<u8>, pos: int)
    requires
        pos >= 1,
    ensures
        spec_dict_info(b, pos) matches Some((s, e)) ==> pos < s < e <= b.len() && (spec_value(b, s) matches Ok((_, end)) && end == e),
    decreases b.len() - pos,
{
    if !(pos < 0 || pos >= b.len() || b[pos] == 101u8) {
        match spec_bytes(b, pos) {
            Err(_) => {},
            Ok((k, kend)) => if !(kend <= pos || kend > b.len()) {
                match spec_value(b, kend) {
                    Err(_) => {},
                    Ok((_, vend)) => if !(vend <= kend || vend > b.len()) {
                        lemma_dict_info_bounds(b, vend);
                    },
                }
            },
        }
    }
}

} // verus!
