//! A small JSON reader and writer for tool-call payloads.
//!
//! The reader works on bytes: a string's unescaped bytes each become the character with
//! that code point, and numbers are kept as the text that spelled them.
use vstd::prelude::*;

use vstd::string::StringSliceAdditionalSpecFns;

use crate::error::{FellmError, Result};

verus! {

/// A JSON value as a mathematical value.
#[verifier::ext_equal]
pub enum Json {
    /// `null`
    Null,
    /// `true` / `false`
    Bool(bool),
    /// A number, as written.
    Number(Seq<char>),
    /// A string.
    Str(Seq<char>),
    /// An array.
    Array(Seq<Json>),
    /// An object: its members in order, duplicates kept.
    Object(Seq<(Seq<char>, Json)>),
}

/// ASCII whitespace as `u8::is_ascii_whitespace` defines it: space, tab, line feed,
/// form feed, carriage return.
pub open spec fn is_ws(b: u8) -> bool {
    b == 0x20 || b == 0x09 || b == 0x0A || b == 0x0C || b == 0x0D
}

/// The position of the first non-whitespace byte at or after `i` (or the end).
pub open spec fn skip_ws_from(src: Seq<u8>, i: int) -> int
    decreases src.len() - i,
{
    if 0 <= i < src.len() && is_ws(src[i]) {
        skip_ws_from(src, i + 1)
    } else {
        i
    }
}

/// Skipping whitespace never moves backwards, and stops at the end or on a non-space.
pub proof fn lemma_skip_ws(src: Seq<u8>, i: int)
    requires
        0 <= i <= src.len(),
    ensures
        i <= skip_ws_from(src, i) <= src.len(),
        skip_ws_from(src, i) < src.len() ==> !is_ws(src[skip_ws_from(src, i)]),
    decreases src.len() - i,
{
    if i < src.len() && is_ws(src[i]) {
        lemma_skip_ws(src, i + 1);
    }
}

/// The value of an ASCII hexadecimal digit, as `char::to_digit(16)` gives it.
pub open spec fn hex_value(b: u8) -> Option<u32> {
    if 0x30 <= b <= 0x39 {
        Some((b - 0x30) as u32)
    } else if 0x61 <= b <= 0x66 {
        Some((b - 0x61 + 10) as u32)
    } else if 0x41 <= b <= 0x46 {
        Some((b - 0x41 + 10) as u32)
    } else {
        None
    }
}

/// The character with code point `v`, or U+FFFD when `v` is a surrogate or out of range.
pub open spec fn char_or_replacement(v: u32) -> char {
    if v < 0xD800 || (0xE000 <= v && v <= 0x10FFFF) {
        v as char
    } else {
        '\u{FFFD}'
    }
}

/// Four hex digits at `k`, as a number.
pub open spec fn hex4_at(src: Seq<u8>, k: int) -> Option<u32> {
    if 0 <= k && k + 4 <= src.len() {
        match (hex_value(src[k]), hex_value(src[k + 1]), hex_value(src[k + 2]), hex_value(src[k + 3])) {
            (Some(a), Some(b), Some(c), Some(d)) => Some((((a * 16 + b) * 16 + c) * 16 + d) as u32),
            _ => None,
        }
    } else {
        None
    }
}

/// One character of a string body at `k` (after the opening quote), with the position
/// after it; `None` for the closing quote or for a malformed escape.
pub open spec fn string_char_at(src: Seq<u8>, k: int) -> Option<(char, int)> {
    if k < 0 || k >= src.len() || src[k] == 0x22 {
        None
    } else if src[k] == 0x5C {
        if k + 1 >= src.len() {
            None
        } else {
            let e = src[k + 1];
            if e == 0x75 {
                match hex4_at(src, k + 2) {
                    Some(v) => Some((char_or_replacement(v), k + 6)),
                    None => None,
                }
            } else {
                let c = if e == 0x6E {
                    '\n'
                } else if e == 0x72 {
                    '\r'
                } else if e == 0x74 {
                    '\t'
                } else {
                    e as char
                };
                Some((c, k + 2))
            }
        }
    } else {
        Some((src[k] as char, k + 1))
    }
}

/// The body of a string from `k` (after the opening quote) through the closing quote:
/// its characters and the position after the quote.
pub open spec fn string_body_at(src: Seq<u8>, k: int) -> Option<(Seq<char>, int)>
    decreases src.len() - k,
{
    if k < 0 || k >= src.len() {
        None
    } else if src[k] == 0x22 {
        Some((Seq::empty(), k + 1))
    } else {
        match string_char_at(src, k) {
            None => None,
            Some((c, next)) => if next <= k {
                None
            } else {
                match string_body_at(src, next) {
                    None => None,
                    Some((cs, end)) => Some((seq![c] + cs, end)),
                }
            },
        }
    }
}

/// A string literal starting at `i` with its opening quote.
pub open spec fn string_at(src: Seq<u8>, i: int) -> Option<(Seq<char>, int)> {
    if 0 <= i < src.len() && src[i] == 0x22 {
        string_body_at(src, i + 1)
    } else {
        None
    }
}

/// The position after the run of ASCII digits starting at `i`.
pub open spec fn digits_end(src: Seq<u8>, i: int) -> int
    decreases src.len() - i,
{
    if 0 <= i < src.len() && 0x30 <= src[i] <= 0x39 {
        digits_end(src, i + 1)
    } else {
        i
    }
}

/// Where a number starting at `i` ends: an optional `-`, digits, an optional fraction
/// (`.` and digits), an optional exponent (`e` or `E`, an optional sign, digits). No
/// part is required to be non-empty.
pub open spec fn number_end(src: Seq<u8>, i: int) -> int {
    let p1 = if 0 <= i < src.len() && src[i] == 0x2D { i + 1 } else { i };
    let p2 = digits_end(src, p1);
    let p3 = if 0 <= p2 < src.len() && src[p2] == 0x2E { digits_end(src, p2 + 1) } else { p2 };
    if 0 <= p3 < src.len() && (src[p3] == 0x65 || src[p3] == 0x45) {
        let p4 = if p3 + 1 < src.len() && (src[p3 + 1] == 0x2B || src[p3 + 1] == 0x2D) { p3 + 2 } else { p3 + 1 };
        digits_end(src, p4)
    } else {
        p3
    }
}

/// The characters of bytes `i..j`, one per byte.
pub open spec fn byte_chars(src: Seq<u8>, i: int, j: int) -> Seq<char> {
    src.subrange(i, j).map_values(|b: u8| b as char)
}

/// `lit` spelled out at `i`.
pub open spec fn literal_at(src: Seq<u8>, i: int, lit: Seq<u8>) -> bool {
    0 <= i && i + lit.len() <= src.len() && src.subrange(i, i + lit.len() as int) == lit
}

/// A JSON value starting at `i` (after optional whitespace), and the position after it.
pub open spec fn value_at(src: Seq<u8>, i: int) -> Option<(Json, int)>
    decreases src.len() - i, 0int,
{
    if i < 0 || i > src.len() {
        None
    } else {
        let j = skip_ws_from(src, i);
        proof {
            lemma_skip_ws(src, i);
        }
        if j >= src.len() {
            None
        } else {
            let c = src[j];
            if c == 0x6E {
                if literal_at(src, j, seq![0x6Eu8, 0x75, 0x6C, 0x6C]) { Some((Json::Null, j + 4)) } else { None }
            } else if c == 0x74 {
                if literal_at(src, j, seq![0x74u8, 0x72, 0x75, 0x65]) { Some((Json::Bool(true), j + 4)) } else { None }
            } else if c == 0x66 {
                if literal_at(src, j, seq![0x66u8, 0x61, 0x6C, 0x73, 0x65]) { Some((Json::Bool(false), j + 5)) } else { None }
            } else if c == 0x22 {
                match string_at(src, j) {
                    Some((s, end)) => Some((Json::Str(s), end)),
                    None => None,
                }
            } else if c == 0x5B {
                array_after(src, j + 1)
            } else if c == 0x7B {
                object_after(src, j + 1)
            } else if c == 0x2D || (0x30 <= c && c <= 0x39) {
                let end = number_end(src, j);
                Some((Json::Number(byte_chars(src, j, end)), end))
            } else {
                None
            }
        }
    }
}

/// An array whose `[` came just before `k`: `]` after optional whitespace, or elements.
pub open spec fn array_after(src: Seq<u8>, k: int) -> Option<(Json, int)>
    decreases src.len() - k, 2int,
{
    if k < 0 || k > src.len() {
        None
    } else {
        let j = skip_ws_from(src, k);
        proof {
            lemma_skip_ws(src, k);
        }
        if j < src.len() && src[j] == 0x5D {
            Some((Json::Array(Seq::empty()), j + 1))
        } else {
            match items_at(src, j) {
                Some((vs, end)) => Some((Json::Array(vs), end)),
                None => None,
            }
        }
    }
}

/// An object whose `{` came just before `k`: `}` after optional whitespace, or members.
pub open spec fn object_after(src: Seq<u8>, k: int) -> Option<(Json, int)>
    decreases src.len() - k, 2int,
{
    if k < 0 || k > src.len() {
        None
    } else {
        let j = skip_ws_from(src, k);
        proof {
            lemma_skip_ws(src, k);
        }
        if j < src.len() && src[j] == 0x7D {
            Some((Json::Object(Seq::empty()), j + 1))
        } else {
            match members_at(src, j) {
                Some((ms, end)) => Some((Json::Object(ms), end)),
                None => None,
            }
        }
    }
}

/// Array elements from `k` (after `[` and any empty-array check): a value, whitespace,
/// then `]` to end or `,` to continue.
pub open spec fn items_at(src: Seq<u8>, k: int) -> Option<(Seq<Json>, int)>
    decreases src.len() - k, 1int,
{
    if k < 0 || k >= src.len() {
        None
    } else {
        match value_at(src, k) {
            None => None,
            Some((v, e)) => if e <= k || e > src.len() {
                None
            } else {
                let j = skip_ws_from(src, e);
                proof {
                    lemma_skip_ws(src, e);
                }
                if j >= src.len() {
                    None
                } else if src[j] == 0x5D {
                    Some((seq![v], j + 1))
                } else if src[j] == 0x2C {
                    match items_at(src, j + 1) {
                        Some((vs, end)) => Some((seq![v] + vs, end)),
                        None => None,
                    }
                } else {
                    None
                }
            },
        }
    }
}

/// Object members from `k` (after `{` and any empty-object check): a string key,
/// `:`, a value, then `}` to end or `,` to continue; whitespace is allowed between.
pub open spec fn members_at(src: Seq<u8>, k: int) -> Option<(Seq<(Seq<char>, Json)>, int)>
    decreases src.len() - k, 1int,
{
    if k < 0 || k >= src.len() {
        None
    } else {
        let j0 = skip_ws_from(src, k);
        proof {
            lemma_skip_ws(src, k);
        }
        match string_at(src, j0) {
            None => None,
            Some((key, e1)) => if e1 <= j0 || e1 > src.len() {
                None
            } else {
                let j1 = skip_ws_from(src, e1);
                proof {
                    lemma_skip_ws(src, e1);
                }
                if j1 >= src.len() || src[j1] != 0x3A {
                    None
                } else {
                    match value_at(src, j1 + 1) {
                        None => None,
                        Some((v, e2)) => if e2 <= j1 || e2 > src.len() {
                            None
                        } else {
                            let j2 = skip_ws_from(src, e2);
                            proof {
                                lemma_skip_ws(src, e2);
                            }
                            if j2 >= src.len() {
                                None
                            } else if src[j2] == 0x7D {
                                Some((seq![(key, v)], j2 + 1))
                            } else if src[j2] == 0x2C {
                                match members_at(src, j2 + 1) {
                                    Some((ms, end)) => Some((seq![(key, v)] + ms, end)),
                                    None => None,
                                }
                            } else {
                                None
                            }
                        },
                    }
                }
            },
        }
    }
}

/// A whole text that is one JSON value, with only whitespace after it.
pub open spec fn json_document(src: Seq<u8>) -> Option<Json> {
    match value_at(src, 0) {
        Some((v, end)) => if skip_ws_from(src, end) == src.len() { Some(v) } else { None },
        None => None,
    }
}

/// A JSON value.
#[derive(Debug)]
pub enum JsonValue {
    /// `null`
    Null,
    /// `true` / `false`
    Bool(bool),
    /// A number, as written.
    Number(String),
    /// A string.
    String(String),
    /// An array.
    Array(Vec<JsonValue>),
    /// An object: its members in order.
    Object(Vec<(String, JsonValue)>),
}

impl JsonValue {
    /// The value as a mathematical value.
    pub open spec fn model(&self) -> Json
        decreases self,
    {
        match self {
            JsonValue::Null => Json::Null,
            JsonValue::Bool(b) => Json::Bool(*b),
            JsonValue::Number(n) => Json::Number(n@),
            JsonValue::String(s) => Json::Str(s@),
            JsonValue::Array(a) => Json::Array(
                Seq::new(a@.len(), |i: int| if 0 <= i < a@.len() { a@[i].model() } else { Json::Null }),
            ),
            JsonValue::Object(o) => Json::Object(
                Seq::new(o@.len(), |i: int| if 0 <= i < o@.len() { (o@[i].0@, o@[i].1.model()) } else { (Seq::empty(), Json::Null) }),
            ),
        }
    }
}

proof fn lemma_digits_end(src: Seq<u8>, i: int)
    requires
        0 <= i <= src.len(),
    ensures
        i <= digits_end(src, i) <= src.len(),
    decreases src.len() - i,
{
    if i < src.len() && 0x30 <= src[i] <= 0x39 {
        lemma_digits_end(src, i + 1);
    }
}

proof fn lemma_number_end(src: Seq<u8>, i: int)
    requires
        0 <= i < src.len(),
        src[i] == 0x2D || (0x30 <= src[i] <= 0x39),
    ensures
        i < number_end(src, i) <= src.len(),
{
    let p1 = if src[i] == 0x2D { i + 1 } else { i };
    lemma_digits_end(src, p1);
    let p2 = digits_end(src, p1);
    if p1 == i {
        assert(digits_end(src, i) == digits_end(src, i + 1));
        lemma_digits_end(src, i + 1);
    }
    if 0 <= p2 < src.len() && src[p2] == 0x2E {
        lemma_digits_end(src, p2 + 1);
    }
    let p3 = if 0 <= p2 < src.len() && src[p2] == 0x2E { digits_end(src, p2 + 1) } else { p2 };
    if 0 <= p3 < src.len() && (src[p3] == 0x65 || src[p3] == 0x45) {
        let p4 = if p3 + 1 < src.len() && (src[p3 + 1] == 0x2B || src[p3 + 1] == 0x2D) { p3 + 2 } else { p3 + 1 };
        lemma_digits_end(src, p4);
    }
}

proof fn lemma_string_body_bounds(src: Seq<u8>, k: int)
    requires
        string_body_at(src, k) is Some,
    ensures
        k < string_body_at(src, k).unwrap().1 <= src.len(),
    decreases src.len() - k,
{
    if src[k] != 0x22 {
        let next = string_char_at(src, k).unwrap().1;
        lemma_string_body_bounds(src, next);
    }
}

proof fn lemma_items_bounds(src: Seq<u8>, k: int)
    requires
        items_at(src, k) is Some,
    ensures
        k < items_at(src, k).unwrap().1 <= src.len(),
    decreases src.len() - k,
{
    let (v, e) = value_at(src, k).unwrap();
    lemma_skip_ws(src, e);
    let j = skip_ws_from(src, e);
    if src[j] == 0x2C {
        lemma_items_bounds(src, j + 1);
    }
}

proof fn lemma_members_bounds(src: Seq<u8>, k: int)
    requires
        members_at(src, k) is Some,
    ensures
        k < members_at(src, k).unwrap().1 <= src.len(),
    decreases src.len() - k,
{
    lemma_skip_ws(src, k);
    let j0 = skip_ws_from(src, k);
    let (key, e1) = string_at(src, j0).unwrap();
    lemma_skip_ws(src, e1);
    let j1 = skip_ws_from(src, e1);
    let (v, e2) = value_at(src, j1 + 1).unwrap();
    lemma_skip_ws(src, e2);
    let j2 = skip_ws_from(src, e2);
    if src[j2] == 0x2C {
        lemma_members_bounds(src, j2 + 1);
    }
}

/// A value read from `i` ends after `i` and within the text.
pub proof fn lemma_value_bounds(src: Seq<u8>, i: int)
    requires
        value_at(src, i) is Some,
    ensures
        i < value_at(src, i).unwrap().1 <= src.len(),
{
    lemma_skip_ws(src, i);
    let j = skip_ws_from(src, i);
    let c = src[j];
    if c == 0x22 {
        lemma_string_body_bounds(src, j + 1);
    } else if c == 0x5B {
        lemma_skip_ws(src, j + 1);
        let k = skip_ws_from(src, j + 1);
        if !(k < src.len() && src[k] == 0x5D) {
            lemma_items_bounds(src, k);
        }
    } else if c == 0x7B {
        lemma_skip_ws(src, j + 1);
        let k = skip_ws_from(src, j + 1);
        if !(k < src.len() && src[k] == 0x7D) {
            lemma_members_bounds(src, k);
        }
    } else if c == 0x2D || (0x30 <= c && c <= 0x39) {
        lemma_number_end(src, j);
    }
}

/// The models of a sequence of values.
pub open spec fn models(vs: Seq<JsonValue>) -> Seq<Json> {
    Seq::new(vs.len(), |i: int| if 0 <= i < vs.len() { vs[i].model() } else { Json::Null })
}

/// The models of a sequence of object members.
pub open spec fn member_models(ms: Seq<(String, JsonValue)>) -> Seq<(Seq<char>, Json)> {
    Seq::new(ms.len(), |i: int| if 0 <= i < ms.len() { (ms[i].0@, ms[i].1.model()) } else { (Seq::empty(), Json::Null) })
}

/// An array value's model holds its elements' models.
pub proof fn lemma_array_model(items: Vec<JsonValue>)
    ensures
        JsonValue::Array(items).model() == Json::Array(models(items@)),
{
    let m = JsonValue::Array(items).model();
    let s = m->Array_0;
    assert(forall|i: int| 0 <= i < s.len() ==> s[i] == models(items@)[i]);
    assert(s =~= models(items@));
}

/// An object value's model holds its members' models.
pub proof fn lemma_object_model(items: Vec<(String, JsonValue)>)
    ensures
        JsonValue::Object(items).model() == Json::Object(member_models(items@)),
{
    let m = JsonValue::Object(items).model();
    let s = m->Object_0;
    assert(forall|i: int| 0 <= i < s.len() ==> s[i] == member_models(items@)[i]);
    assert(s =~= member_models(items@));
}

/// `u8::is_ascii_whitespace`.
fn is_ascii_ws(b: u8) -> (r: bool)
    ensures
        r == is_ws(b),
{
    b == 0x20 || b == 0x09 || b == 0x0A || b == 0x0C || b == 0x0D
}

/// `char::to_digit(16)` on the character of an ASCII byte.
fn hex_digit(b: u8) -> (r: Option<u32>)
    ensures
        r == hex_value(b),
{
    if 0x30 <= b && b <= 0x39 {
        Some((b - 0x30) as u32)
    } else if 0x61 <= b && b <= 0x66 {
        Some((b - 0x61 + 10) as u32)
    } else if 0x41 <= b && b <= 0x46 {
        Some((b - 0x41 + 10) as u32)
    } else {
        None
    }
}

/// `char::from_u32`: the character with code point `v`, unless `v` is a surrogate or
/// above U+10FFFF.
#[verifier::external_body]
fn char_from_u32(v: u32) -> (r: Option<char>)
    ensures
        r is Some <==> (v < 0xD800 || (0xE000 <= v && v <= 0x10FFFF)),
        r matches Some(c) ==> c == v as char,
{
    char::from_u32(v)
}

/// The error every JSON failure reports.
fn json_error() -> (e: FellmError)
    ensures
        e is Tokenization,
{
    FellmError::Tokenization("invalid JSON".to_owned())
}

/// Cursor over the bytes of a JSON text.
struct JsonParser<'a> {
    src: &'a [u8],
    i: usize,
}

impl<'a> JsonParser<'a> {
    fn skip_ws(&mut self)
        requires
            old(self).i <= old(self).src@.len(),
        ensures
            final(self).src == old(self).src,
            final(self).i == skip_ws_from(old(self).src@, old(self).i as int),
    {
        proof {
            lemma_skip_ws(self.src@, self.i as int);
        }
        while self.i < self.src.len() && is_ascii_ws(self.src[self.i])
            invariant
                self.src == old(self).src,
                old(self).i <= self.i <= self.src@.len(),
                skip_ws_from(self.src@, self.i as int) == skip_ws_from(old(self).src@, old(self).i as int),
            decreases self.src@.len() - self.i,
        {
            self.i = self.i + 1;
        }
    }

    fn peek(&self) -> (r: Option<u8>)
        ensures
            r == if self.i < self.src@.len() { Some(self.src@[self.i as int]) } else { None::<u8> },
    {
        if self.i < self.src.len() {
            Some(self.src[self.i])
        } else {
            None
        }
    }

    fn bump(&mut self) -> (r: Result<u8>)
        ensures
            final(self).src == old(self).src,
            old(self).i < old(self).src@.len() ==> r == Ok::<u8, FellmError>(old(self).src@[old(self).i as int])
                && final(self).i == old(self).i + 1,
            old(self).i >= old(self).src@.len() ==> (r matches Err(e) && e is Tokenization)
                && final(self).i == old(self).i,
    {
        if self.i < self.src.len() {
            let c = self.src[self.i];
            self.i = self.i + 1;
            Ok(c)
        } else {
            Err(json_error())
        }
    }

    fn parse_literal(&mut self, lit: &[u8], v: JsonValue) -> (r: Result<JsonValue>)
        requires
            old(self).i <= old(self).src@.len(),
        ensures
            final(self).src == old(self).src,
            literal_at(old(self).src@, old(self).i as int, lit@) ==> r == Ok::<JsonValue, FellmError>(v)
                && final(self).i == old(self).i + lit@.len(),
            !literal_at(old(self).src@, old(self).i as int, lit@) ==> (r matches Err(e) && e is Tokenization),
    {
        let start = self.i;
        let mut k: usize = 0;
        while k < lit.len()
            invariant
                self.src == old(self).src,
                start == old(self).i,
                k <= lit@.len(),
                self.i == start + k,
                self.i <= self.src@.len(),
                forall|m: int| 0 <= m < k ==> self.src@[start + m] == lit@[m],
            decreases lit@.len() - k,
        {
            let b = match self.bump() {
                Ok(b) => b,
                Err(e) => return Err(e),
            };
            if b != lit[k] {
                return Err(json_error());
            }
            k = k + 1;
        }
        proof {
            assert(self.src@.subrange(start as int, start + lit@.len()) =~= lit@);
        }
        Ok(v)
    }

    fn read_hex4(&mut self) -> (r: Result<u32>)
        requires
            old(self).i <= old(self).src@.len(),
        ensures
            final(self).src == old(self).src,
            final(self).i <= final(self).src@.len(),
            match hex4_at(old(self).src@, old(self).i as int) {
                Some(v) => r == Ok::<u32, FellmError>(v) && final(self).i == old(self).i + 4,
                None => r matches Err(e) && e is Tokenization,
            },
    {
        let b0 = self.bump()?;
        let b1 = self.bump()?;
        let b2 = self.bump()?;
        let b3 = self.bump()?;
        match (hex_digit(b0), hex_digit(b1), hex_digit(b2), hex_digit(b3)) {
            (Some(a), Some(b), Some(c), Some(d)) => Ok(((a * 16 + b) * 16 + c) * 16 + d),
            _ => Err(json_error()),
        }
    }

    fn parse_string(&mut self) -> (r: Result<String>)
        requires
            old(self).i <= old(self).src@.len(),
        ensures
            final(self).src == old(self).src,
            final(self).i <= final(self).src@.len(),
            match string_at(old(self).src@, old(self).i as int) {
                Some((cs, end)) => (r matches Ok(s) && s@ == cs) && final(self).i == end,
                None => r matches Err(e) && e is Tokenization,
            },
    {
        let q = self.bump()?;
        if q != 0x22 {
            return Err(json_error());
        }
        let ghost src = self.src@;
        let ghost start = self.i as int;
        let mut out = String::new();
        loop
            invariant
                self.src == old(self).src,
                src == self.src@,
                start <= self.i <= src.len(),
                start == old(self).i + 1,
                old(self).i < src.len() && src[old(self).i as int] == 0x22,
                string_body_at(src, start) == match string_body_at(src, self.i as int) {
                    Some((cs, end)) => Some((out@ + cs, end)),
                    None => None,
                },
            decreases src.len() - self.i,
        {
            let ghost k = self.i as int;
            let c = self.bump()?;
            if c == 0x22 {
                proof {
                    assert(out@ + Seq::<char>::empty() =~= out@);
                }
                return Ok(out);
            }
            let ch: char = if c == 0x5C {
                let e = self.bump()?;
                if e == 0x75 {
                    let v = self.read_hex4()?;
                    match char_from_u32(v) {
                        Some(x) => x,
                        None => '\u{FFFD}',
                    }
                } else if e == 0x6E {
                    '\n'
                } else if e == 0x72 {
                    '\r'
                } else if e == 0x74 {
                    '\t'
                } else {
                    e as char
                }
            } else {
                c as char
            };
            proof {
                let next = self.i as int;
                assert(string_char_at(src, k) == Some((ch, next)));
                match string_body_at(src, next) {
                    Some((cs, end)) => {
                        assert(out@.push(ch) + cs =~= out@ + (seq![ch] + cs));
                    },
                    None => {},
                }
            }
            crate::text::string_push(&mut out, ch);
        }
    }

    fn parse_number(&mut self) -> (r: Result<JsonValue>)
        requires
            old(self).i <= old(self).src@.len(),
        ensures
            final(self).src == old(self).src,
            final(self).i == number_end(old(self).src@, old(self).i as int),
            r matches Ok(v) && v.model() == Json::Number(
                byte_chars(old(self).src@, old(self).i as int, number_end(old(self).src@, old(self).i as int)),
            ),
    {
        let ghost src = self.src@;
        let start = self.i;
        if self.i < self.src.len() && self.src[self.i] == 0x2D {
            self.i = self.i + 1;
        }
        self.skip_digits();
        if self.i < self.src.len() && self.src[self.i] == 0x2E {
            self.i = self.i + 1;
            self.skip_digits();
        }
        if self.i < self.src.len() && (self.src[self.i] == 0x65 || self.src[self.i] == 0x45) {
            self.i = self.i + 1;
            if self.i < self.src.len() && (self.src[self.i] == 0x2B || self.src[self.i] == 0x2D) {
                self.i = self.i + 1;
            }
            self.skip_digits();
        }
        let end = self.i;
        let mut out = String::new();
        let mut k = start;
        while k < end
            invariant
                self.src@ == src,
                start <= k <= end <= src.len(),
                out@ =~= byte_chars(src, start as int, k as int),
            decreases end - k,
        {
            crate::text::string_push(&mut out, self.src[k] as char);
            k = k + 1;
        }
        Ok(JsonValue::Number(out))
    }

    fn skip_digits(&mut self)
        requires
            old(self).i <= old(self).src@.len(),
        ensures
            final(self).src == old(self).src,
            final(self).i == digits_end(old(self).src@, old(self).i as int),
            old(self).i <= final(self).i <= final(self).src@.len(),
    {
        proof {
            lemma_digits_end(self.src@, self.i as int);
        }
        while self.i < self.src.len() && 0x30 <= self.src[self.i] && self.src[self.i] <= 0x39
            invariant
                self.src == old(self).src,
                old(self).i <= self.i <= self.src@.len(),
                digits_end(self.src@, self.i as int) == digits_end(old(self).src@, old(self).i as int),
            decreases self.src@.len() - self.i,
        {
            self.i = self.i + 1;
        }
    }

    fn parse_value(&mut self) -> (r: Result<JsonValue>)
        requires
            old(self).i <= old(self).src@.len(),
        ensures
            final(self).src == old(self).src,
            match value_at(old(self).src@, old(self).i as int) {
                Some((v, end)) => (r matches Ok(x) && x.model() == v) && final(self).i == end,
                None => r matches Err(e) && e is Tokenization,
            },
        decreases old(self).src@.len() - old(self).i, 1int,
    {
        let ghost src = self.src@;
        self.skip_ws();
        proof {
            lemma_skip_ws(src, old(self).i as int);
        }
        if self.i >= self.src.len() {
            return Err(json_error());
        }
        let c = self.src[self.i];
        if c == 0x6E {
            let lit: [u8; 4] = [0x6E, 0x75, 0x6C, 0x6C];
            assert(lit@ =~= seq![0x6Eu8, 0x75, 0x6C, 0x6C]);
            self.parse_literal(&lit, JsonValue::Null)
        } else if c == 0x74 {
            let lit: [u8; 4] = [0x74, 0x72, 0x75, 0x65];
            assert(lit@ =~= seq![0x74u8, 0x72, 0x75, 0x65]);
            self.parse_literal(&lit, JsonValue::Bool(true))
        } else if c == 0x66 {
            let lit: [u8; 5] = [0x66, 0x61, 0x6C, 0x73, 0x65];
            assert(lit@ =~= seq![0x66u8, 0x61, 0x6C, 0x73, 0x65]);
            self.parse_literal(&lit, JsonValue::Bool(false))
        } else if c == 0x22 {
            let s = self.parse_string()?;
            Ok(JsonValue::String(s))
        } else if c == 0x5B {
            self.parse_array()
        } else if c == 0x7B {
            self.parse_object()
        } else if c == 0x2D || (0x30 <= c && c <= 0x39) {
            self.parse_number()
        } else {
            Err(json_error())
        }
    }

    fn parse_array(&mut self) -> (r: Result<JsonValue>)
        requires
            old(self).i < old(self).src@.len(),
            old(self).src@[old(self).i as int] == 0x5B,
        ensures
            final(self).src == old(self).src,
            match array_after(old(self).src@, old(self).i + 1) {
                Some((v, end)) => (r matches Ok(x) && x.model() == v) && final(self).i == end,
                None => r matches Err(e) && e is Tokenization,
            },
        decreases old(self).src@.len() - old(self).i, 0int,
    {
        let ghost src = self.src@;
        self.bump()?;
        let mut items: Vec<JsonValue> = Vec::new();
        self.skip_ws();
        proof {
            lemma_skip_ws(src, old(self).i + 1);
        }
        if self.i < self.src.len() && self.src[self.i] == 0x5D {
            self.i = self.i + 1;
            proof {
                lemma_array_model(items);
                assert(models(items@) =~= Seq::<Json>::empty());
            }
            return Ok(JsonValue::Array(items));
        }
        let ghost k0 = self.i as int;
        assert(models(items@) + Seq::<Json>::empty() =~= Seq::<Json>::empty());
        loop
            invariant
                self.src == old(self).src,
                src == self.src@,
                old(self).i < k0 <= self.i <= src.len(),
                array_after(src, old(self).i + 1) == match items_at(src, k0) {
                    Some((vs, end)) => Some((Json::Array(vs), end)),
                    None => None,
                },
                items_at(src, k0) == match items_at(src, self.i as int) {
                    Some((vs, end)) => Some((models(items@) + vs, end)),
                    None => None,
                },
            decreases src.len() - self.i,
        {
            let ghost k = self.i as int;
            if self.i >= self.src.len() {
                return Err(json_error());
            }
            let v = self.parse_value()?;
            proof {
                lemma_value_bounds(src, k);
            }
            let ghost e = self.i as int;
            self.skip_ws();
            proof {
                lemma_skip_ws(src, e);
            }
            let c = self.bump()?;
            let ghost before = items@;
            let ghost vm = v.model();
            items.push(v);
            proof {
                assert(models(items@) =~= models(before).push(vm));
            }
            if c == 0x5D {
                proof {
                    assert(models(before) + seq![vm] =~= models(items@));
                    lemma_array_model(items);
                }
                return Ok(JsonValue::Array(items));
            }
            if c != 0x2C {
                return Err(json_error());
            }
            proof {
                match items_at(src, self.i as int) {
                    Some((vs, end)) => {
                        assert(models(before) + (seq![vm] + vs) =~= models(items@) + vs);
                    },
                    None => {},
                }
            }
        }
    }

    fn parse_object(&mut self) -> (r: Result<JsonValue>)
        requires
            old(self).i < old(self).src@.len(),
            old(self).src@[old(self).i as int] == 0x7B,
        ensures
            final(self).src == old(self).src,
            match object_after(old(self).src@, old(self).i + 1) {
                Some((v, end)) => (r matches Ok(x) && x.model() == v) && final(self).i == end,
                None => r matches Err(e) && e is Tokenization,
            },
        decreases old(self).src@.len() - old(self).i, 0int,
    {
        let ghost src = self.src@;
        self.bump()?;
        let mut items: Vec<(String, JsonValue)> = Vec::new();
        self.skip_ws();
        proof {
            lemma_skip_ws(src, old(self).i + 1);
        }
        if self.i < self.src.len() && self.src[self.i] == 0x7D {
            self.i = self.i + 1;
            proof {
                lemma_object_model(items);
                assert(member_models(items@) =~= Seq::<(Seq<char>, Json)>::empty());
            }
            return Ok(JsonValue::Object(items));
        }
        let ghost k0 = self.i as int;
        assert(member_models(items@) + Seq::<(Seq<char>, Json)>::empty() =~= Seq::<(Seq<char>, Json)>::empty());
        loop
            invariant
                self.src == old(self).src,
                src == self.src@,
                old(self).i < k0 <= self.i <= src.len(),
                object_after(src, old(self).i + 1) == match members_at(src, k0) {
                    Some((ms, end)) => Some((Json::Object(ms), end)),
                    None => None,
                },
                members_at(src, k0) == match members_at(src, self.i as int) {
                    Some((ms, end)) => Some((member_models(items@) + ms, end)),
                    None => None,
                },
            decreases src.len() - self.i,
        {
            let ghost k = self.i as int;
            if self.i >= self.src.len() {
                return Err(json_error());
            }
            self.skip_ws();
            proof {
                lemma_skip_ws(src, k);
            }
            let ghost j0 = self.i as int;
            let key = self.parse_string()?;
            proof {
                lemma_string_body_bounds(src, j0 + 1);
            }
            let ghost e1 = self.i as int;
            self.skip_ws();
            proof {
                lemma_skip_ws(src, e1);
            }
            let colon = self.bump()?;
            if colon != 0x3A {
                return Err(json_error());
            }
            let ghost j1 = (self.i - 1) as int;
            let val = self.parse_value()?;
            proof {
                lemma_value_bounds(src, j1 + 1);
            }
            let ghost e2 = self.i as int;
            self.skip_ws();
            proof {
                lemma_skip_ws(src, e2);
            }
            let c = self.bump()?;
            let ghost before = items@;
            let ghost mm = (key@, val.model());
            items.push((key, val));
            proof {
                assert(member_models(items@) =~= member_models(before).push(mm));
            }
            if c == 0x7D {
                proof {
                    assert(member_models(before) + seq![mm] =~= member_models(items@));
                    lemma_object_model(items);
                }
                return Ok(JsonValue::Object(items));
            }
            if c != 0x2C {
                return Err(json_error());
            }
            proof {
                match members_at(src, self.i as int) {
                    Some((ms, end)) => {
                        assert(member_models(before) + (seq![mm] + ms) =~= member_models(items@) + ms);
                    },
                    None => {},
                }
            }
        }
    }
}

/// Parse a whole text as one JSON value (whitespace allowed around it).
pub fn parse_json_value(s: &str) -> (r: Result<JsonValue>)
    ensures
        match json_document(s.spec_bytes()) {
            Some(v) => r matches Ok(x) && x.model() == v,
            None => r matches Err(e) && e is Tokenization,
        },
{
    let mut p = JsonParser { src: s.as_bytes(), i: 0 };
    let v = p.parse_value()?;
    proof {
        lemma_value_bounds(s.spec_bytes(), 0);
    }
    p.skip_ws();
    if p.i != p.src.len() {
        return Err(FellmError::Tokenization("trailing junk in JSON".to_owned()));
    }
    Ok(v)
}

/// A control character: Unicode general category Cc (U+0000–U+001F, U+007F–U+009F).
pub open spec fn is_control(c: char) -> bool {
    (c as u32) <= 0x1F || (0x7F <= (c as u32) && (c as u32) <= 0x9F)
}

/// The lower-case hexadecimal digit for `d` (0..16).
pub open spec fn hex_char(d: u32) -> char {
    if d < 10 {
        ((0x30 + d) as u8) as char
    } else {
        ((0x61 + d - 10) as u8) as char
    }
}

/// How one character is written inside a JSON string literal.
pub open spec fn escape_char(c: char) -> Seq<char> {
    let v = c as u32;
    if c == '"' {
        seq!['\\', '"']
    } else if c == '\\' {
        seq!['\\', '\\']
    } else if c == '\n' {
        seq!['\\', 'n']
    } else if c == '\r' {
        seq!['\\', 'r']
    } else if c == '\t' {
        seq!['\\', 't']
    } else if is_control(c) {
        seq!['\\', 'u', hex_char(v / 4096 % 16), hex_char(v / 256 % 16), hex_char(v / 16 % 16), hex_char(v % 16)]
    } else {
        seq![c]
    }
}

/// A text escaped for a JSON string literal, character by character.
pub open spec fn escape(s: Seq<char>) -> Seq<char>
    decreases s.len(),
{
    if s.len() == 0 {
        Seq::empty()
    } else {
        escape(s.drop_last()) + escape_char(s.last())
    }
}

/// A string literal: the text escaped, between double quotes.
pub open spec fn quoted(s: Seq<char>) -> Seq<char> {
    seq!['"'] + escape(s) + seq!['"']
}

/// Compact JSON text of a value: no whitespace, members and elements in order.
pub open spec fn to_text(j: Json) -> Seq<char>
    decreases j,
{
    match j {
        Json::Null => seq!['n', 'u', 'l', 'l'],
        Json::Bool(b) => if b { seq!['t', 'r', 'u', 'e'] } else { seq!['f', 'a', 'l', 's', 'e'] },
        Json::Number(n) => n,
        Json::Str(s) => quoted(s),
        Json::Array(vs) => seq!['['] + items_text(vs) + seq![']'],
        Json::Object(ms) => seq!['{'] + members_text(ms) + seq!['}'],
    }
}

/// The texts of array elements, comma-separated.
pub open spec fn items_text(vs: Seq<Json>) -> Seq<char>
    decreases vs,
{
    if vs.len() == 0 {
        Seq::empty()
    } else if vs.len() == 1 {
        to_text(vs[0])
    } else {
        items_text(vs.drop_last()) + seq![','] + to_text(vs.last())
    }
}

/// The `"key":value` texts of object members, comma-separated.
pub open spec fn members_text(ms: Seq<(Seq<char>, Json)>) -> Seq<char>
    decreases ms,
{
    if ms.len() == 0 {
        Seq::empty()
    } else if ms.len() == 1 {
        quoted(ms[0].0) + seq![':'] + to_text(ms[0].1)
    } else {
        members_text(ms.drop_last()) + seq![','] + quoted(ms.last().0) + seq![':'] + to_text(ms.last().1)
    }
}

/// The lower-case hexadecimal digit for `d`.
fn hex_digit_char(d: u32) -> (c: char)
    requires
        d < 16,
    ensures
        c == hex_char(d),
{
    if d < 10 {
        ((0x30 + d) as u8) as char
    } else {
        ((0x61 + d - 10) as u8) as char
    }
}

/// Append the JSON string-literal form of `c`.
fn push_escaped(out: &mut String, c: char)
    ensures
        final(out)@ == old(out)@ + escape_char(c),
{
    let ghost before = out@;
    if c == '"' {
        crate::text::string_push_str(out, "\\\"");
    } else if c == '\\' {
        crate::text::string_push_str(out, "\\\\");
    } else if c == '\n' {
        crate::text::string_push_str(out, "\\n");
    } else if c == '\r' {
        crate::text::string_push_str(out, "\\r");
    } else if c == '\t' {
        crate::text::string_push_str(out, "\\t");
    } else if (c as u32) <= 0x1F || (0x7F <= (c as u32) && (c as u32) <= 0x9F) {
        let v = c as u32;
        crate::text::string_push(out, '\\');
        crate::text::string_push(out, 'u');
        crate::text::string_push(out, hex_digit_char(v / 4096 % 16));
        crate::text::string_push(out, hex_digit_char(v / 256 % 16));
        crate::text::string_push(out, hex_digit_char(v / 16 % 16));
        crate::text::string_push(out, hex_digit_char(v % 16));
        assert(out@ =~= before + escape_char(c));
        return;
    } else {
        crate::text::string_push(out, c);
        assert(out@ =~= before + escape_char(c));
        return;
    }
    proof {
        reveal_strlit("\\\"");
        reveal_strlit("\\\\");
        reveal_strlit("\\n");
        reveal_strlit("\\r");
        reveal_strlit("\\t");
        assert(out@ =~= before + escape_char(c));
    }
}

/// Escape a string for inclusion in a JSON string literal.
pub fn escape_json_string(s: &str) -> (r: String)
    ensures
        r@ == escape(s@),
{
    let cs = crate::text::str_chars(s);
    let mut out = String::new();
    let mut i: usize = 0;
    while i < cs.len()
        invariant
            i <= cs@.len(),
            cs@ == s@,
            out@ == escape(cs@.take(i as int)),
        decreases cs@.len() - i,
    {
        proof {
            assert(cs@.take(i + 1).drop_last() =~= cs@.take(i as int));
        }
        push_escaped(&mut out, cs[i]);
        i = i + 1;
    }
    proof {
        assert(cs@.take(cs@.len() as int) =~= cs@);
    }
    out
}

proof fn lemma_escape_append(a: Seq<char>, b: Seq<char>)
    ensures
        escape(a + b) == escape(a) + escape(b),
    decreases b.len(),
{
    if b.len() == 0 {
        assert(a + b =~= a);
        assert(escape(a) + escape(b) =~= escape(a));
    } else {
        lemma_escape_append(a, b.drop_last());
        assert((a + b).drop_last() =~= a + b.drop_last());
        assert((a + b).last() == b.last());
        assert(escape(a) + escape(b) =~= escape(a) + escape(b.drop_last()) + escape_char(b.last()));
    }
}

proof fn lemma_hex_char_value(d: u32)
    requires
        d < 16,
    ensures
        hex_value(hex_char(d) as u8) == Some(d),
        '\0' <= hex_char(d) <= '\u{7f}',
{
}

proof fn lemma_escape_char_ascii(c: char)
    requires
        '\0' <= c <= '\u{7f}',
    ensures
        vstd::utf8::is_ascii_chars(escape_char(c)),
        escape_char(c).len() >= 1,
{
    let v = c as u32;
    if is_control(c) && c != '\n' && c != '\r' && c != '\t' {
        lemma_hex_char_value(v / 4096 % 16);
        lemma_hex_char_value(v / 256 % 16);
        lemma_hex_char_value(v / 16 % 16);
        lemma_hex_char_value(v % 16);
    }
}

proof fn lemma_escape_ascii(s: Seq<char>)
    requires
        vstd::utf8::is_ascii_chars(s),
    ensures
        vstd::utf8::is_ascii_chars(escape(s)),
    decreases s.len(),
{
    if s.len() > 0 {
        lemma_escape_ascii(s.drop_last());
        assert(s.last() == s[s.len() - 1]);
        lemma_escape_char_ascii(s.last());
        let e = escape(s);
        let a = escape(s.drop_last());
        let b = escape_char(s.last());
        assert forall|i: int| 0 <= i < e.len() implies '\0' <= #[trigger] e[i] <= '\u{7f}' by {
            if i < a.len() {
                assert(e[i] == a[i]);
            } else {
                assert(e[i] == b[i - a.len()]);
            }
        }
    }
}

/// The bytes at `k` spell the characters `t`, each one byte.
pub open spec fn spells(src: Seq<u8>, k: int, t: Seq<char>) -> bool {
    &&& 0 <= k
    &&& k + t.len() <= src.len()
    &&& forall|i: int| 0 <= i < t.len() ==> src[k + i] == #[trigger] t[i] as u8
}

proof fn lemma_escaped_char_reads(src: Seq<u8>, k: int, c: char)
    requires
        '\0' <= c <= '\u{7f}',
        spells(src, k, escape_char(c)),
    ensures
        string_char_at(src, k) == Some((c, k + escape_char(c).len())),
{
    let t = escape_char(c);
    let v = c as u32;
    assert(src[k] == t[0] as u8);
    if c == '"' || c == '\\' || c == '\n' || c == '\r' || c == '\t' {
        assert(src[k + 1] == t[1] as u8);
    } else if is_control(c) {
        assert(src[k + 1] == t[1] as u8);
        assert(src[k + 2] == t[2] as u8);
        assert(src[k + 3] == t[3] as u8);
        assert(src[k + 4] == t[4] as u8);
        assert(src[k + 5] == t[5] as u8);
        lemma_hex_char_value(v / 4096 % 16);
        lemma_hex_char_value(v / 256 % 16);
        lemma_hex_char_value(v / 16 % 16);
        lemma_hex_char_value(v % 16);
        assert(v / 4096 % 16 == 0 && v / 256 % 16 == 0);
        assert(hex4_at(src, k + 2) == Some(v));
    }
}

proof fn lemma_escaped_body_reads(src: Seq<u8>, k: int, s: Seq<char>)
    requires
        vstd::utf8::is_ascii_chars(s),
        spells(src, k, escape(s)),
        k + escape(s).len() < src.len(),
        src[k + escape(s).len()] == 0x22,
    ensures
        string_body_at(src, k) == Some((s, k + escape(s).len() + 1)),
    decreases s.len(),
{
    if s.len() == 0 {
        assert(escape(s).len() == 0);
    } else {
        let c = s[0];
        let rest = s.drop_first();
        assert(s =~= seq![c] + rest);
        lemma_escape_append(seq![c], rest);
        assert(seq![c].drop_last() =~= Seq::<char>::empty());
        assert(seq![c].last() == c);
        assert(escape(Seq::<char>::empty()) == Seq::<char>::empty());
        assert(Seq::<char>::empty() + escape_char(c) =~= escape_char(c));
        assert(escape(seq![c]) == escape_char(c));
        let ec = escape_char(c);
        let er = escape(rest);
        assert(escape(s) == ec + er);
        lemma_escape_char_ascii(c);
        assert forall|i: int| 0 <= i < ec.len() implies src[k + i] == #[trigger] ec[i] as u8 by {
            assert(escape(s)[i] == ec[i]);
        }
        lemma_escaped_char_reads(src, k, c);
        assert forall|i: int| 0 <= i < er.len() implies src[k + ec.len() + i] == #[trigger] er[i] as u8 by {
            assert(escape(s)[ec.len() + i] == er[i]);
        }
        assert(vstd::utf8::is_ascii_chars(rest)) by {
            assert forall|i: int| 0 <= i < rest.len() implies '\0' <= #[trigger] rest[i] <= '\u{7f}' by {
                assert(rest[i] == s[i + 1]);
            }
        }
        assert(src[k] != 0x22) by {
            assert(src[k] == ec[0] as u8);
        }
        lemma_escaped_body_reads(src, k + ec.len(), rest);
        assert(seq![c] + rest == s);
    }
}

/// Parsing a string literal written as `escape_json_string` escapes an ASCII text, between
/// double quotes, gives back the text.
pub proof fn lemma_parse_undoes_escape(s: Seq<char>, t: &str)
    requires
        vstd::utf8::is_ascii_chars(s),
        t@ == quoted(s),
    ensures
        json_document(t.spec_bytes()) == Some(Json::Str(s)),
{
    let e = escape(s);
    lemma_escape_ascii(s);
    assert(vstd::string::is_ascii(t)) by {
        assert forall|i: int| 0 <= i < t@.len() implies '\0' <= #[trigger] t@[i] <= '\u{7f}' by {
            if 1 <= i < t@.len() - 1 {
                assert(t@[i] == e[i - 1]);
            }
        }
    }
    vstd::string::is_ascii_spec_bytes(t);
    let b = t.spec_bytes();
    assert(b.len() == e.len() + 2);
    assert(b[0] == 0x22);
    assert(spells(b, 1, e)) by {
        assert forall|i: int| 0 <= i < e.len() implies b[1 + i] == #[trigger] e[i] as u8 by {
            assert(t@[1 + i] == e[i]);
        }
    }
    assert(b[e.len() + 1int] == 0x22) by {
        assert(t@[e.len() + 1int] == '"');
    }
    lemma_escaped_body_reads(b, 1, s);
    assert(skip_ws_from(b, 0) == 0);
    assert(value_at(b, 0) == Some((Json::Str(s), b.len() as int)));
    assert(skip_ws_from(b, b.len() as int) == b.len());
}

/// Compact JSON text of a value.
#[verifier::loop_isolation(false)]
#[verifier::rlimit(30)]
pub fn json_value_to_string(v: &JsonValue) -> (r: String)
    ensures
        r@ == to_text(v.model()),
    decreases v,
{
    match v {
        JsonValue::Null => {
            proof {
                reveal_strlit("null");
            }
            "null".to_owned()
        },
        JsonValue::Bool(b) => {
            proof {
                reveal_strlit("true");
                reveal_strlit("false");
            }
            if *b {
                "true".to_owned()
            } else {
                "false".to_owned()
            }
        },
        JsonValue::Number(n) => n.clone(),
        JsonValue::String(s) => {
            let mut out = String::new();
            crate::text::string_push(&mut out, '"');
            crate::text::string_push_str(&mut out, escape_json_string(s.as_str()).as_str());
            crate::text::string_push(&mut out, '"');
            assert(out@ =~= quoted(s@));
            out
        },
        JsonValue::Array(a) => {
            let mut out = String::new();
            crate::text::string_push(&mut out, '[');
            let ghost ms = models(a@);
            assert(ms.take(0) =~= Seq::<Json>::empty());
            let mut i: usize = 0;
            while i < a.len()
                invariant
                    i <= a@.len(),
                    ms == models(a@),
                    out@ == seq!['['] + items_text(ms.take(i as int)),
                decreases a@.len() - i,
            {
                if i > 0 {
                    crate::text::string_push(&mut out, ',');
                }
                proof {
                    assert(decreases_to!(v => a@[i as int]));
                }
                let t = json_value_to_string(&a[i]);
                crate::text::string_push_str(&mut out, t.as_str());
                proof {
                    let p = ms.take(i + 1);
                    assert(p.drop_last() =~= ms.take(i as int));
                    assert(p.last() == ms[i as int]);
                    if i == 0 {
                        assert(p[0] == ms[0]);
                    }
                    assert(out@ =~= seq!['['] + items_text(p));
                }
                i = i + 1;
            }
            crate::text::string_push(&mut out, ']');
            proof {
                assert(ms.take(a@.len() as int) =~= ms);
                lemma_array_model(*a);
            }
            out
        },
        JsonValue::Object(o) => {
            let mut out = String::new();
            crate::text::string_push(&mut out, '{');
            let ghost ms = member_models(o@);
            assert(ms.take(0) =~= Seq::<(Seq<char>, Json)>::empty());
            let mut i: usize = 0;
            while i < o.len()
                invariant
                    i <= o@.len(),
                    ms == member_models(o@),
                    out@ == seq!['{'] + members_text(ms.take(i as int)),
                decreases o@.len() - i,
            {
                if i > 0 {
                    crate::text::string_push(&mut out, ',');
                }
                let ghost mid = out@;
                crate::text::string_push(&mut out, '"');
                crate::text::string_push_str(&mut out, escape_json_string(o[i].0.as_str()).as_str());
                crate::text::string_push(&mut out, '"');
                crate::text::string_push(&mut out, ':');
                proof {
                    assert(decreases_to!(v => o@[i as int].1));
                }
                let t = json_value_to_string(&o[i].1);
                crate::text::string_push_str(&mut out, t.as_str());
                proof {
                    let p = ms.take(i + 1);
                    assert(p.drop_last() =~= ms.take(i as int));
                    assert(p.last() == ms[i as int]);
                    if i == 0 {
                        assert(p[0] == ms[0]);
                    }
                    assert(out@ =~= seq!['{'] + members_text(p));
                }
                i = i + 1;
            }
            crate::text::string_push(&mut out, '}');
            proof {
                assert(ms.take(o@.len() as int) =~= ms);
                lemma_object_model(*o);
            }
            out
        },
    }
}

/// The first member of an object stored under `k`.
pub open spec fn member_lookup(ms: Seq<(Seq<char>, Json)>, k: Seq<char>) -> Option<Json>
    decreases ms.len(),
{
    if ms.len() == 0 {
        None
    } else if ms[0].0 == k {
        Some(ms[0].1)
    } else {
        member_lookup(ms.drop_first(), k)
    }
}

/// The value of the first member named `key`.
pub fn map_get<'a>(map: &'a [(String, JsonValue)], key: &str) -> (r: Option<&'a JsonValue>)
    ensures
        match member_lookup(member_models(map@), key@) {
            Some(v) => r matches Some(x) && x.model() == v,
            None => r is None,
        },
{
    let ghost ms = member_models(map@);
    assert(ms.skip(0) =~= ms);
    let mut i: usize = 0;
    while i < map.len()
        invariant
            i <= map@.len(),
            ms == member_models(map@),
            member_lookup(ms, key@) == member_lookup(ms.skip(i as int), key@),
        decreases map@.len() - i,
    {
        proof {
            assert(ms.skip(i as int)[0] == ms[i as int]);
            assert(ms.skip(i as int).drop_first() =~= ms.skip(i + 1));
        }
        if crate::text::str_equal(map[i].0.as_str(), key) {
            return Some(&map[i].1);
        }
        i = i + 1;
    }
    None
}

} // verus!
