//! Assistant output parsing for Llama-family tool calling.
//!
//! Recognized response formats (Llama 3.1 / 3.2 Instruct):
//! - JSON: `{"name": "...", "parameters": {...}}`
//! - Pythonic: `[fn(a=1, b='x'), ...]`
//! - an optional `<|python_tag|>` prefix.
//!
//! Texts are handled as sequences of characters.
use vstd::prelude::*;
use vstd::slice::{slice_subrange, slice_to_vec};
use vstd::string::StringSliceAdditionalSpecFns;

use crate::error::{FellmError, Result};
use crate::json::{escape_json_string, json_document, json_value_to_string, map_get, member_lookup, member_models, parse_json_value, quoted, to_text, Json, JsonValue};

verus! {

/// Unicode `White_Space`, the property `char::is_whitespace` and `str::trim` use.
pub open spec fn is_white_space(c: char) -> bool {
    let v = c as u32;
    ||| 0x09 <= v <= 0x0D
    ||| v == 0x20
    ||| v == 0x85
    ||| v == 0xA0
    ||| v == 0x1680
    ||| 0x2000 <= v <= 0x200A
    ||| v == 0x2028
    ||| v == 0x2029
    ||| v == 0x202F
    ||| v == 0x205F
    ||| v == 0x3000
}

/// `s` without its leading white space.
pub open spec fn trim_start(s: Seq<char>) -> Seq<char>
    decreases s.len(),
{
    if s.len() > 0 && is_white_space(s[0]) {
        trim_start(s.drop_first())
    } else {
        s
    }
}

/// `s` without its trailing white space.
pub open spec fn trim_end(s: Seq<char>) -> Seq<char>
    decreases s.len(),
{
    if s.len() > 0 && is_white_space(s.last()) {
        trim_end(s.drop_last())
    } else {
        s
    }
}

/// `s` without leading and trailing white space (`str::trim`).
pub open spec fn trim(s: Seq<char>) -> Seq<char> {
    trim_end(trim_start(s))
}

/// `char::is_whitespace`.
fn is_ws_char(c: char) -> (b: bool)
    ensures
        b == is_white_space(c),
{
    let v = c as u32;
    (0x09 <= v && v <= 0x0D) || v == 0x20 || v == 0x85 || v == 0xA0 || v == 0x1680 || (0x2000 <= v
        && v <= 0x200A) || v == 0x2028 || v == 0x2029 || v == 0x202F || v == 0x205F || v == 0x3000
}

proof fn lemma_trim_start_skip(s: Seq<char>, i: int)
    requires
        0 <= i <= s.len(),
        forall|k: int| 0 <= k < i ==> #[trigger] is_white_space(s[k]),
    ensures
        trim_start(s) == trim_start(s.skip(i)),
    decreases i,
{
    if i > 0 {
        assert(s.drop_first().skip(i - 1) =~= s.skip(i));
        assert forall|k: int| 0 <= k < i - 1 implies #[trigger] is_white_space(s.drop_first()[k]) by {
            assert(is_white_space(s[k + 1]));
        }
        lemma_trim_start_skip(s.drop_first(), i - 1);
    } else {
        assert(s.skip(0) =~= s);
    }
}

proof fn lemma_trim_end_take(s: Seq<char>, j: int)
    requires
        0 <= j <= s.len(),
        forall|k: int| j <= k < s.len() ==> #[trigger] is_white_space(s[k]),
    ensures
        trim_end(s) == trim_end(s.take(j)),
    decreases s.len() - j,
{
    if j < s.len() {
        assert(s.drop_last().take(j) =~= s.take(j));
        lemma_trim_end_take(s.drop_last(), j);
    } else {
        assert(s.take(j) =~= s);
    }
}

/// `str::trim` on characters.
pub fn trim_chars(cs: &[char]) -> (r: &[char])
    ensures
        r@ == trim(cs@),
        r@.len() <= cs@.len(),
{
    let n = cs.len();
    let mut a: usize = 0;
    while a < n && is_ws_char(cs[a])
        invariant
            a <= n,
            n == cs@.len(),
            forall|k: int| 0 <= k < a ==> #[trigger] is_white_space(cs@[k]),
        decreases n - a,
    {
        a = a + 1;
    }
    proof {
        lemma_trim_start_skip(cs@, a as int);
    }
    let ghost rest = cs@.skip(a as int);
    assert(trim_start(rest) == rest);
    let mut b: usize = n;
    while b > a && is_ws_char(cs[b - 1])
        invariant
            a <= b <= n,
            n == cs@.len(),
            rest == cs@.skip(a as int),
            forall|k: int| b - a <= k < rest.len() ==> #[trigger] is_white_space(rest[k]),
        decreases b - a,
    {
        b = b - 1;
    }
    proof {
        lemma_trim_end_take(rest, (b - a) as int);
        let t = rest.take((b - a) as int);
        assert(t =~= cs@.subrange(a as int, b as int));
        if t.len() > 0 {
            assert(t.last() == cs@[b - 1]);
        }
        assert(trim_end(t) == t);
    }
    slice_subrange(cs, a, b)
}

/// The state of a left-to-right scan that splits a text at top-level commas.
pub struct SplitScan {
    /// Bracket nesting depth outside quotes.
    pub depth: int,
    /// Inside a single-quoted string.
    pub in_single: bool,
    /// Inside a double-quoted string.
    pub in_double: bool,
    /// Where the current piece starts.
    pub start: int,
    /// The pieces completed so far.
    pub pieces: Seq<Seq<char>>,
}

/// The scan after character `i`: a quote toggles its kind of string unless inside the
/// other kind; outside strings, brackets change the depth and a comma at depth 0 ends a
/// piece.
pub open spec fn split_step(st: SplitScan, cs: Seq<char>, i: int) -> SplitScan {
    let c = cs[i];
    if c == '\'' && !st.in_double {
        SplitScan { in_single: !st.in_single, ..st }
    } else if c == '"' && !st.in_single {
        SplitScan { in_double: !st.in_double, ..st }
    } else if !st.in_single && !st.in_double {
        if c == '(' || c == '[' || c == '{' {
            SplitScan { depth: st.depth + 1, ..st }
        } else if c == ')' || c == ']' || c == '}' {
            SplitScan { depth: st.depth - 1, ..st }
        } else if c == ',' && st.depth == 0 {
            SplitScan { start: i + 1, pieces: st.pieces.push(cs.subrange(st.start, i)), ..st }
        } else {
            st
        }
    } else {
        st
    }
}

/// The scan over the first `n` characters.
pub open spec fn split_scan(cs: Seq<char>, n: nat) -> SplitScan
    decreases n,
{
    if n == 0 {
        SplitScan { depth: 0, in_single: false, in_double: false, start: 0, pieces: Seq::empty() }
    } else {
        split_step(split_scan(cs, (n - 1) as nat), cs, n - 1)
    }
}

/// The pieces of `cs` between top-level commas; a final piece only when non-empty.
pub open spec fn split_top(cs: Seq<char>) -> Seq<Seq<char>> {
    let st = split_scan(cs, cs.len());
    if st.start < cs.len() {
        st.pieces.push(cs.subrange(st.start, cs.len() as int))
    } else {
        st.pieces
    }
}

proof fn lemma_split_scan_bounds(cs: Seq<char>, n: nat)
    requires
        n <= cs.len(),
    ensures
        0 <= split_scan(cs, n).start <= n,
        -(n as int) <= split_scan(cs, n).depth <= n,
        split_scan(cs, n).pieces.len() <= n,
    decreases n,
{
    if n > 0 {
        lemma_split_scan_bounds(cs, (n - 1) as nat);
    }
}

/// Split `s` at commas that are outside brackets and quotes.
pub fn split_top_level_calls(s: &[char]) -> (out: Vec<Vec<char>>)
    requires
        s@.len() <= isize::MAX,
    ensures
        out@.map_values(|p: Vec<char>| p@) == split_top(s@),
        forall|k: int| 0 <= k < out@.len() ==> (#[trigger] out@[k])@.len() <= s@.len(),
{
    let mut out: Vec<Vec<char>> = Vec::new();
    let mut depth: i64 = 0;
    let mut in_s = false;
    let mut in_d = false;
    let mut start: usize = 0;
    let mut i: usize = 0;
    let n = s.len();
    assert(out@.map_values(|p: Vec<char>| p@) =~= Seq::<Seq<char>>::empty());
    while i < n
        invariant
            i <= s@.len(),
            n == s@.len(),
            n <= isize::MAX,
            ({
                let st = split_scan(s@, i as nat);
                &&& st.depth == depth as int
                &&& st.in_single == in_s
                &&& st.in_double == in_d
                &&& st.start == start as int
                &&& st.pieces == out@.map_values(|p: Vec<char>| p@)
            }),
            start <= i,
            forall|k: int| 0 <= k < out@.len() ==> (#[trigger] out@[k])@.len() <= n,
        decreases s@.len() - i,
    {
        proof {
            lemma_split_scan_bounds(s@, i as nat);
        }
        let c = s[i];
        let ghost before = out@;
        if c == '\'' && !in_d {
            in_s = !in_s;
        } else if c == '"' && !in_s {
            in_d = !in_d;
        } else if !in_s && !in_d {
            if c == '(' || c == '[' || c == '{' {
                depth = depth + 1;
            } else if c == ')' || c == ']' || c == '}' {
                depth = depth - 1;
            } else if c == ',' && depth == 0 {
                out.push(slice_to_vec(slice_subrange(s, start, i)));
                proof {
                    assert(out@.map_values(|p: Vec<char>| p@) =~= before.map_values(|p: Vec<char>| p@).push(s@.subrange(start as int, i as int)));
                }
                start = i + 1;
            }
        }
        i = i + 1;
    }
    if start < n {
        let ghost before = out@;
        out.push(slice_to_vec(slice_subrange(s, start, n)));
        proof {
            assert(out@.map_values(|p: Vec<char>| p@) =~= before.map_values(|p: Vec<char>| p@).push(s@.subrange(start as int, s@.len() as int)));
        }
    }
    out
}

/// The text ends with a comma outside brackets and quotes.
pub open spec fn ends_in_top_comma(cs: Seq<char>) -> bool {
    cs.len() > 0 && split_scan(cs, cs.len()).start == cs.len()
}

proof fn lemma_split_scan_join(cs: Seq<char>, n: nat)
    requires
        n <= cs.len(),
    ensures
        split_scan(cs, n).pieces.len() == 0 ==> split_scan(cs, n).start == 0,
        split_scan(cs, n).pieces.len() > 0 ==> join_commas(split_scan(cs, n).pieces) + seq![','] == cs.take(
            split_scan(cs, n).start,
        ),
    decreases n,
{
    if n > 0 {
        let i = n - 1;
        lemma_split_scan_join(cs, (n - 1) as nat);
        lemma_split_scan_bounds(cs, (n - 1) as nat);
        let st = split_scan(cs, (n - 1) as nat);
        let st2 = split_scan(cs, n);
        if st2.pieces.len() != st.pieces.len() {
            let p = cs.subrange(st.start, i);
            assert(st2.pieces == st.pieces.push(p));
            assert(cs[i] == ',');
            if st.pieces.len() == 0 {
                assert(join_commas(st2.pieces) == p);
                assert(p + seq![','] =~= cs.take(n as int));
            } else {
                assert(st2.pieces.drop_last() =~= st.pieces);
                assert(join_commas(st2.pieces) == join_commas(st.pieces) + seq![','] + p);
                assert(cs.take(st.start) + p + seq![','] =~= cs.take(n as int));
            }
        }
    }
}

/// Joining the pieces of a split with commas gives back the text, but for a comma that
/// ends the text outside brackets and quotes, which the split drops.
pub proof fn lemma_split_top_join(cs: Seq<char>)
    ensures
        if ends_in_top_comma(cs) {
            join_commas(split_top(cs)) + seq![','] == cs
        } else {
            join_commas(split_top(cs)) == cs
        },
{
    let n = cs.len();
    lemma_split_scan_join(cs, n);
    lemma_split_scan_bounds(cs, n);
    let st = split_scan(cs, n);
    if st.start < n {
        let last = cs.subrange(st.start, n as int);
        if st.pieces.len() == 0 {
            assert(split_top(cs) =~= seq![last]);
            assert(last =~= cs);
        } else {
            assert(split_top(cs).drop_last() =~= st.pieces);
            assert(cs.take(st.start) + last =~= cs);
        }
    } else {
        assert(cs.take(n as int) =~= cs);
    }
}

/// How many commas outside brackets and quotes the text holds.
pub open spec fn top_level_commas(p: Seq<char>) -> nat {
    split_scan(p, p.len()).pieces.len()
}

proof fn lemma_split_scan_prefix(s1: Seq<char>, s2: Seq<char>, m: nat)
    requires
        m <= s1.len(),
        m <= s2.len(),
        forall|i: int| 0 <= i < m ==> s1[i] == s2[i],
    ensures
        split_scan(s1, m) == split_scan(s2, m),
    decreases m,
{
    if m > 0 {
        lemma_split_scan_prefix(s1, s2, (m - 1) as nat);
        lemma_split_scan_bounds(s1, (m - 1) as nat);
        let st = split_scan(s1, (m - 1) as nat);
        assert(s1.subrange(st.start, m - 1) =~= s2.subrange(st.start, m - 1));
    }
}

/// After `n` characters, every completed piece holds no top-level comma, and the piece in
/// progress scans, on its own, to the same nesting and quoting with no comma.
proof fn lemma_split_scan_pieces_free(cs: Seq<char>, n: nat)
    requires
        n <= cs.len(),
    ensures
        forall|k: int| 0 <= k < split_scan(cs, n).pieces.len() ==> top_level_commas(
            #[trigger] split_scan(cs, n).pieces[k],
        ) == 0,
        ({
            let st = split_scan(cs, n);
            let q = cs.subrange(st.start, n as int);
            let sq = split_scan(q, q.len());
            &&& sq.pieces.len() == 0
            &&& sq.depth == st.depth
            &&& sq.in_single == st.in_single
            &&& sq.in_double == st.in_double
        }),
    decreases n,
{
    lemma_split_scan_bounds(cs, n);
    if n == 0 {
        let q = cs.subrange(0, 0);
        assert(q.len() == 0);
    } else {
        let m = (n - 1) as nat;
        lemma_split_scan_pieces_free(cs, m);
        lemma_split_scan_bounds(cs, m);
        let st = split_scan(cs, m);
        let st2 = split_scan(cs, n);
        let q0 = cs.subrange(st.start, m as int);
        let q1 = cs.subrange(st.start, n as int);
        let len0 = (m - st.start) as nat;
        lemma_split_scan_prefix(q0, q1, len0);
        assert(q1[len0 as int] == cs[m as int]);
        if st2.pieces.len() != st.pieces.len() {
            assert(st2.pieces == st.pieces.push(q0));
            assert forall|k: int| 0 <= k < st2.pieces.len() implies top_level_commas(#[trigger] st2.pieces[k]) == 0 by {
                if k < st.pieces.len() {
                    assert(st2.pieces[k] == st.pieces[k]);
                }
            }
            let q = cs.subrange(st2.start, n as int);
            assert(q.len() == 0);
        } else {
            assert(st2.pieces == st.pieces);
            assert(st2.start == st.start);
        }
    }
}

/// No piece of a split holds a comma outside brackets and quotes: split again, a piece
/// gives no further piece boundary.
pub proof fn lemma_split_top_pieces_have_no_top_comma(cs: Seq<char>)
    ensures
        forall|k: int| 0 <= k < split_top(cs).len() ==> top_level_commas(#[trigger] split_top(cs)[k]) == 0,
{
    let n = cs.len();
    lemma_split_scan_pieces_free(cs, n);
    let st = split_scan(cs, n);
    if st.start < n {
        let last = cs.subrange(st.start, n as int);
        assert forall|k: int| 0 <= k < split_top(cs).len() implies top_level_commas(#[trigger] split_top(cs)[k]) == 0 by {
            if k < st.pieces.len() {
                assert(split_top(cs)[k] == st.pieces[k]);
            } else {
                assert(split_top(cs)[k] == last);
            }
        }
    }
}

/// The index of the first `c` in `s`, or -1.
pub open spec fn first_index(s: Seq<char>, c: char) -> int
    decreases s.len(),
{
    if s.len() == 0 {
        -1
    } else if s[0] == c {
        0
    } else {
        let k = first_index(s.drop_first(), c);
        if k < 0 { -1 } else { k + 1 }
    }
}

pub(crate) proof fn lemma_first_index(s: Seq<char>, c: char)
    ensures
        -1 <= first_index(s, c) < s.len(),
        first_index(s, c) >= 0 ==> s[first_index(s, c)] == c,
        forall|j: int| 0 <= j < s.len() && (first_index(s, c) < 0 || j < first_index(s, c)) ==> #[trigger] s[j] != c,
    decreases s.len(),
{
    if s.len() > 0 && s[0] != c {
        lemma_first_index(s.drop_first(), c);
        assert forall|j: int| 0 <= j < s.len() && (first_index(s, c) < 0 || j < first_index(s, c)) implies #[trigger] s[j] != c by {
            if j > 0 {
                assert(s[j] == s.drop_first()[j - 1]);
            }
        }
    }
}

proof fn lemma_first_index_at(s: Seq<char>, c: char, i: int)
    requires
        0 <= i < s.len(),
        s[i] == c,
        forall|j: int| 0 <= j < i ==> #[trigger] s[j] != c,
    ensures
        first_index(s, c) == i,
    decreases s.len(),
{
    if i > 0 {
        assert forall|j: int| 0 <= j < i - 1 implies #[trigger] s.drop_first()[j] != c by {
            assert(s[j + 1] != c);
        }
        lemma_first_index_at(s.drop_first(), c, i - 1);
    }
}

proof fn lemma_first_index_none(s: Seq<char>, c: char)
    requires
        forall|j: int| 0 <= j < s.len() ==> #[trigger] s[j] != c,
    ensures
        first_index(s, c) == -1,
    decreases s.len(),
{
    if s.len() > 0 {
        assert forall|j: int| 0 <= j < s.len() - 1 implies #[trigger] s.drop_first()[j] != c by {
            assert(s[j + 1] != c);
        }
        lemma_first_index_none(s.drop_first(), c);
    }
}

/// `str::find` for one character: its first position.
pub fn find_char(s: &[char], c: char) -> (r: Option<usize>)
    ensures
        match r {
            Some(i) => i == first_index(s@, c),
            None => first_index(s@, c) == -1,
        },
{
    let mut i: usize = 0;
    while i < s.len()
        invariant
            i <= s@.len(),
            forall|j: int| 0 <= j < i ==> #[trigger] s@[j] != c,
        decreases s@.len() - i,
    {
        if s[i] == c {
            proof {
                lemma_first_index_at(s@, c, i as int);
            }
            return Some(i);
        }
        i = i + 1;
    }
    proof {
        lemma_first_index_none(s@, c);
    }
    None
}

/// `pat` occurs in `s`.
pub open spec fn contains_seq(s: Seq<char>, pat: Seq<char>) -> bool {
    exists|i: int| 0 <= i && i + pat.len() <= s.len() && #[trigger] s.subrange(i, i + pat.len()) == pat
}

/// `str::contains` for a pattern of characters.
pub fn contains_chars(s: &[char], pat: &[char]) -> (b: bool)
    ensures
        b == contains_seq(s@, pat@),
{
    let n = s.len();
    let m = pat.len();
    if m > n {
        return false;
    }
    let mut i: usize = 0;
    while i <= n - m
        invariant
            n == s@.len(),
            m == pat@.len(),
            m <= n,
            i <= n - m + 1,
            forall|k: int| 0 <= k < i ==> #[trigger] s@.subrange(k, k + m) != pat@,
        decreases n - m + 1 - i,
    {
        let mut j: usize = 0;
        while j < m && s[i + j] == pat[j]
            invariant
                j <= m,
                i + m <= n,
                n == s@.len(),
                m == pat@.len(),
                forall|t: int| 0 <= t < j ==> s@[i + t] == pat@[t],
            decreases m - j,
        {
            j = j + 1;
        }
        if j == m {
            assert(s@.subrange(i as int, i + m) =~= pat@);
            return true;
        }
        assert(s@.subrange(i as int, i + m)[j as int] != pat@[j as int]);
        i = i + 1;
    }
    assert forall|k: int| 0 <= k && k + m <= n implies #[trigger] s@.subrange(k, k + m) != pat@ by {
        assert(k < i);
    }
    false
}

/// Texts joined with `,` between them (`[String]::join(",")`).
pub open spec fn join_commas(parts: Seq<Seq<char>>) -> Seq<char>
    decreases parts.len(),
{
    if parts.len() == 0 {
        Seq::empty()
    } else if parts.len() == 1 {
        parts[0]
    } else {
        join_commas(parts.drop_last()) + seq![','] + parts.last()
    }
}

/// An ASCII decimal digit.
pub open spec fn is_digit(c: char) -> bool {
    '0' <= c && c <= '9'
}

/// The end of the run of digits starting at `i`.
pub open spec fn digit_run(s: Seq<char>, i: int) -> int
    decreases s.len() - i,
{
    if 0 <= i < s.len() && is_digit(s[i]) {
        digit_run(s, i + 1)
    } else {
        i
    }
}

/// ASCII lower case.
pub open spec fn ascii_lower(c: char) -> char {
    if 'A' <= c && c <= 'Z' {
        ((c as u32) + 32) as char
    } else {
        c
    }
}

/// `s` equals the lower-case word `w` ignoring ASCII case.
pub open spec fn eq_ignore_case(s: Seq<char>, w: Seq<char>) -> bool {
    s.len() == w.len() && forall|i: int| 0 <= i < s.len() ==> #[trigger] ascii_lower(s[i]) == w[i]
}

/// `Exp ::= 'e' Sign? Digit+` (either case) from `b` to the end of `r`.
pub open spec fn exponent_from(r: Seq<char>, b: int) -> bool {
    0 <= b < r.len() && (r[b] == 'e' || r[b] == 'E') && {
        let c = if b + 1 < r.len() && (r[b + 1] == '+' || r[b + 1] == '-') { b + 2 } else { b + 1 };
        let d = digit_run(r, c);
        d > c && d == r.len()
    }
}

/// `Number ::= (Digit+ | Digit+ '.' Digit* | Digit* '.' Digit+) Exp?`: digits with an
/// optional point and at least one digit, then an optional exponent.
pub open spec fn decimal_literal(r: Seq<char>) -> bool {
    let a = digit_run(r, 0);
    let has_point = a < r.len() && r[a] == '.';
    let b = if has_point { digit_run(r, a + 1) } else { a };
    let frac = if has_point { b - (a + 1) } else { 0 };
    &&& a + frac > 0
    &&& (b == r.len() || exponent_from(r, b))
}

/// The grammar `f64::from_str` accepts (ignoring ASCII case):
/// `Sign? ('inf' | 'infinity' | 'nan' | Number)`.
pub open spec fn float_literal(s: Seq<char>) -> bool {
    let r = if s.len() > 0 && (s[0] == '+' || s[0] == '-') { s.drop_first() } else { s };
    ||| eq_ignore_case(r, seq!['i', 'n', 'f'])
    ||| eq_ignore_case(r, seq!['i', 'n', 'f', 'i', 'n', 'i', 't', 'y'])
    ||| eq_ignore_case(r, seq!['n', 'a', 'n'])
    ||| decimal_literal(r)
}

pub(crate) fn lower_char(c: char) -> (r: char)
    ensures
        r == ascii_lower(c),
{
    if 'A' <= c && c <= 'Z' {
        let v = (c as u32) + 32;
        proof {
            assert(v < 0xD800);
        }
        char_from_ascii_code(v)
    } else {
        c
    }
}

/// The character of an ASCII code.
fn char_from_ascii_code(v: u32) -> (c: char)
    requires
        v < 128,
    ensures
        c == v as char,
{
    (v as u8) as char
}

pub(crate) fn matches_word(r: &[char], w: &[char]) -> (b: bool)
    ensures
        b == eq_ignore_case(r@, w@),
{
    if r.len() != w.len() {
        return false;
    }
    let mut i: usize = 0;
    while i < r.len()
        invariant
            i <= r@.len(),
            r@.len() == w@.len(),
            forall|k: int| 0 <= k < i ==> #[trigger] ascii_lower(r@[k]) == w@[k],
        decreases r@.len() - i,
    {
        if lower_char(r[i]) != w[i] {
            return false;
        }
        i = i + 1;
    }
    true
}

fn digit_run_exec(r: &[char], i: usize) -> (e: usize)
    requires
        i <= r@.len(),
    ensures
        e == digit_run(r@, i as int),
        i <= e <= r@.len(),
{
    let mut e = i;
    while e < r.len() && '0' <= r[e] && r[e] <= '9'
        invariant
            i <= e <= r@.len(),
            digit_run(r@, e as int) == digit_run(r@, i as int),
        decreases r@.len() - e,
    {
        e = e + 1;
    }
    e
}

/// Whether `f64::from_str` accepts `s` (a sign, then `inf`, `infinity`, `nan` or a
/// decimal number with optional exponent).
pub fn is_float_literal(s: &[char]) -> (b: bool)
    ensures
        b == float_literal(s@),
{
    let r = if s.len() > 0 && (s[0] == '+' || s[0] == '-') { slice_subrange(s, 1, s.len()) } else { s };
    assert(r@ == if s@.len() > 0 && (s@[0] == '+' || s@[0] == '-') { s@.drop_first() } else { s@ });
    let inf: [char; 3] = ['i', 'n', 'f'];
    let infinity: [char; 8] = ['i', 'n', 'f', 'i', 'n', 'i', 't', 'y'];
    let nan: [char; 3] = ['n', 'a', 'n'];
    assert(inf@ =~= seq!['i', 'n', 'f']);
    assert(infinity@ =~= seq!['i', 'n', 'f', 'i', 'n', 'i', 't', 'y']);
    assert(nan@ =~= seq!['n', 'a', 'n']);
    if matches_word(r, &inf) || matches_word(r, &infinity) || matches_word(r, &nan) {
        return true;
    }
    let n = r.len();
    let a = digit_run_exec(r, 0);
    let has_point = a < n && r[a] == '.';
    let b = if has_point { digit_run_exec(r, a + 1) } else { a };
    let frac = if has_point { b - (a + 1) } else { 0 };
    if a + frac == 0 {
        return false;
    }
    if b == n {
        return true;
    }
    if !(r[b] == 'e' || r[b] == 'E') {
        return false;
    }
    let c = if b + 1 < n && (r[b + 1] == '+' || r[b + 1] == '-') { b + 2 } else { b + 1 };
    let d = digit_run_exec(r, c);
    d > c && d == n
}

/// The JSON text for one Python literal (after trimming): `None`, `True`, `False` become
/// `null`, `true`, `false`; a quoted string becomes a JSON string of its inside; a float
/// literal, or a bracketed text that is valid JSON, is kept; anything else becomes a JSON
/// string. A lone quote character has no inside and is rejected (`None`).
#[verifier::opaque]
pub open spec fn literal_json(src: Seq<char>) -> Option<Seq<char>> {
    let s = trim(src);
    if s == seq!['N', 'o', 'n', 'e'] {
        Some(seq!['n', 'u', 'l', 'l'])
    } else if s == seq!['T', 'r', 'u', 'e'] {
        Some(seq!['t', 'r', 'u', 'e'])
    } else if s == seq!['F', 'a', 'l', 's', 'e'] {
        Some(seq!['f', 'a', 'l', 's', 'e'])
    } else if s.len() > 0 && ((s[0] == '\'' && s.last() == '\'') || (s[0] == '"' && s.last() == '"')) {
        if s.len() < 2 {
            None
        } else {
            Some(quoted(s.subrange(1, s.len() - 1)))
        }
    } else if float_literal(s) {
        Some(s)
    } else if s.len() > 0 && (s[0] == '[' || s[0] == '{') && json_document(vstd::utf8::encode_utf8(s)) is Some {
        Some(s)
    } else {
        Some(quoted(s))
    }
}

/// Whether two character slices are equal.
fn same_chars(a: &[char], b: &[char]) -> (r: bool)
    ensures
        r == (a@ == b@),
{
    if a.len() != b.len() {
        return false;
    }
    let mut i: usize = 0;
    while i < a.len()
        invariant
            i <= a@.len(),
            a@.len() == b@.len(),
            forall|k: int| 0 <= k < i ==> a@[k] == b@[k],
        decreases a@.len() - i,
    {
        if a[i] != b[i] {
            return false;
        }
        i = i + 1;
    }
    assert(a@ =~= b@);
    true
}

/// A JSON string literal of the characters `cs`.
fn quote_chars(cs: &[char]) -> (r: String)
    ensures
        r@ == quoted(cs@),
{
    let plain = crate::text::string_from_chars(cs);
    let mut out = String::new();
    crate::text::string_push(&mut out, '"');
    crate::text::string_push_str(&mut out, escape_json_string(plain.as_str()).as_str());
    crate::text::string_push(&mut out, '"');
    assert(out@ =~= quoted(cs@));
    out
}

fn lone_quote_error() -> (e: FellmError)
    ensures
        e is Tokenization,
{
    FellmError::Tokenization("unterminated Python string literal".to_owned())
}

fn literal_json_chars(src: &[char]) -> (r: Result<String>)
    ensures
        match literal_json(src@) {
            Some(t) => r matches Ok(x) && x@ == t,
            None => r matches Err(e) && e is Tokenization,
        },
{
    reveal(literal_json);
    let s = trim_chars(src);
    let none_w: [char; 4] = ['N', 'o', 'n', 'e'];
    let true_w: [char; 4] = ['T', 'r', 'u', 'e'];
    let false_w: [char; 5] = ['F', 'a', 'l', 's', 'e'];
    assert(none_w@ =~= seq!['N', 'o', 'n', 'e']);
    assert(true_w@ =~= seq!['T', 'r', 'u', 'e']);
    assert(false_w@ =~= seq!['F', 'a', 'l', 's', 'e']);
    if same_chars(s, &none_w) {
        proof {
            reveal_strlit("null");
        }
        return Ok("null".to_owned());
    }
    if same_chars(s, &true_w) {
        proof {
            reveal_strlit("true");
        }
        return Ok("true".to_owned());
    }
    if same_chars(s, &false_w) {
        proof {
            reveal_strlit("false");
        }
        return Ok("false".to_owned());
    }
    let n = s.len();
    if n > 0 && ((s[0] == '\'' && s[n - 1] == '\'') || (s[0] == '"' && s[n - 1] == '"')) {
        if n < 2 {
            return Err(lone_quote_error());
        }
        return Ok(quote_chars(slice_subrange(s, 1, n - 1)));
    }
    if is_float_literal(s) {
        return Ok(crate::text::string_from_chars(s));
    }
    if n > 0 && (s[0] == '[' || s[0] == '{') {
        let text = crate::text::string_from_chars(s);
        if parse_json_value(text.as_str()).is_ok() {
            return Ok(text);
        }
    }
    Ok(quote_chars(s))
}

/// Convert one Python literal (as in a keyword argument) to JSON text.
pub fn py_literal_to_json(src: &str) -> (r: Result<String>)
    ensures
        match literal_json(src@) {
            Some(t) => r matches Ok(x) && x@ == t,
            None => r matches Err(e) && e is Tokenization,
        },
{
    let cs = crate::text::str_chars(src);
    literal_json_chars(cs.as_slice())
}

/// `"key":value` for one `key=value` argument, or `None` without an `=`.
#[verifier::opaque]
pub open spec fn kwarg_json(piece: Seq<char>) -> Option<Seq<char>> {
    let p = trim(piece);
    let eq = first_index(p, '=');
    if eq < 0 {
        None
    } else {
        match literal_json(trim(p.skip(eq + 1))) {
            Some(v) => Some(quoted(trim(p.take(eq))) + seq![':'] + v),
            None => None,
        }
    }
}

/// The `"key":value` texts of a list of argument pieces, if every piece converts.
pub open spec fn kwarg_parts(ps: Seq<Seq<char>>) -> Option<Seq<Seq<char>>>
    decreases ps.len(),
{
    if ps.len() == 0 {
        Some(Seq::empty())
    } else {
        match (kwarg_parts(ps.drop_last()), kwarg_json(ps.last())) {
            (Some(a), Some(b)) => Some(a.push(b)),
            _ => None,
        }
    }
}

/// A JSON object text for Python keyword arguments `a=1, b='x'` (`{}` for none).
pub open spec fn kwargs_json(src: Seq<char>) -> Option<Seq<char>> {
    let s = trim(src);
    if s.len() == 0 {
        Some(seq!['{', '}'])
    } else {
        match kwarg_parts(split_top(s)) {
            Some(parts) => Some(seq!['{'] + join_commas(parts) + seq!['}']),
            None => None,
        }
    }
}

proof fn lemma_kwarg_parts_none(ps: Seq<Seq<char>>, i: int)
    requires
        0 <= i < ps.len(),
        kwarg_parts(ps.take(i + 1)) is None,
    ensures
        kwarg_parts(ps) is None,
    decreases ps.len(),
{
    if ps.len() > i + 1 {
        assert(ps.drop_last().take(i + 1) =~= ps.take(i + 1));
        lemma_kwarg_parts_none(ps.drop_last(), i);
    } else {
        assert(ps.take(i + 1) =~= ps);
    }
}

/// Message for an argument without `=`.
#[verifier::external_body]
fn bad_kwarg_message(piece: &[char]) -> String {
    format!("bad kwarg: {}", piece.iter().collect::<String>())
}

fn kwargs_json_chars(src: &[char]) -> (r: Result<String>)
    requires
        src@.len() <= isize::MAX,
    ensures
        match kwargs_json(src@) {
            Some(t) => r matches Ok(x) && x@ == t,
            None => r matches Err(e) && e is Tokenization,
        },
{
    let s = trim_chars(src);
    if s.len() == 0 {
        proof {
            reveal_strlit("{}");
        }
        return Ok("{}".to_owned());
    }
    let pieces = split_top_level_calls(s);
    let ghost ps = pieces@.map_values(|p: Vec<char>| p@);
    let mut out = String::new();
    crate::text::string_push(&mut out, '{');
    let ghost mut parts: Seq<Seq<char>> = Seq::empty();
    assert(ps.take(0) =~= Seq::<Seq<char>>::empty());
    let mut i: usize = 0;
    while i < pieces.len()
        invariant
            i <= pieces@.len(),
            ps == pieces@.map_values(|p: Vec<char>| p@),
            ps == split_top(s@),
            s@ == trim(src@),
            s@.len() > 0,
            kwarg_parts(ps.take(i as int)) == Some(parts),
            out@ == seq!['{'] + join_commas(parts),
            parts.len() == i,
        decreases pieces@.len() - i,
    {
        proof {
            assert(ps.take(i + 1).drop_last() =~= ps.take(i as int));
            assert(ps.take(i + 1).last() == ps[i as int]);
            assert(ps[i as int] == pieces@[i as int]@);
        }
        let part = match kwarg_json_chars(pieces[i].as_slice()) {
            Ok(x) => x,
            Err(e) => {
                proof {
                    assert(kwarg_json(ps[i as int]) is None);
                    assert(kwarg_parts(ps.take(i + 1)) is None);
                    lemma_kwarg_parts_none(ps, i as int);
                }
                return Err(e);
            },
        };
        if i > 0 {
            crate::text::string_push(&mut out, ',');
        }
        crate::text::string_push_str(&mut out, part.as_str());
        proof {
            let np = parts.push(part@);
            assert(np.drop_last() =~= parts);
            assert(out@ =~= seq!['{'] + join_commas(np));
            parts = np;
        }
        i = i + 1;
    }
    crate::text::string_push(&mut out, '}');
    proof {
        assert(ps.take(pieces@.len() as int) =~= ps);
    }
    Ok(out)
}

fn kwarg_json_chars(piece: &[char]) -> (r: Result<String>)
    ensures
        match kwarg_json(piece@) {
            Some(t) => r matches Ok(x) && x@ == t,
            None => r matches Err(e) && e is Tokenization,
        },
{
    reveal(kwarg_json);
    let p = trim_chars(piece);
    proof {
        lemma_first_index(p@, '=');
    }
    let eq = match find_char(p, '=') {
        Some(e) => e,
        None => return Err(FellmError::Tokenization(bad_kwarg_message(p))),
    };
    let n = p.len();
    let head = slice_subrange(p, 0, eq);
    let key = trim_chars(head);
    let tail = slice_subrange(p, eq + 1, n);
    let val = trim_chars(tail);
    proof {
        assert(head@ =~= p@.take(eq as int));
        assert(tail@ =~= p@.skip(eq + 1));
    }
    let lit = literal_json_chars(val)?;
    let mut out = quote_chars(key);
    crate::text::string_push(&mut out, ':');
    crate::text::string_push_str(&mut out, lit.as_str());
    assert(out@ =~= quoted(key@) + seq![':'] + lit@);
    Ok(out)
}

/// Convert Python keyword arguments `a=1, b='x'` to a JSON object text.
pub fn py_kwargs_to_json(src: &str) -> (r: Result<String>)
    ensures
        match kwargs_json(src@) {
            Some(t) => r matches Ok(x) && x@ == t,
            None => r matches Err(e) && e is Tokenization,
        },
{
    let cs = crate::text::str_chars(src);
    kwargs_json_chars(cs.as_slice())
}

/// One tool call requested by the model.
#[derive(Debug, Clone)]
pub struct ToolCall {
    /// Call id (empty: these formats carry none).
    pub id: String,
    /// Function name.
    pub name: String,
    /// Arguments as a JSON object text.
    pub arguments: String,
}

/// What an assistant completion says: plain text, or tool calls.
#[derive(Debug, Clone)]
pub enum AssistantOutput {
    /// Plain text (the completion as given).
    Text(String),
    /// One or more tool calls.
    ToolCalls(Vec<ToolCall>),
}

/// A tool call as a mathematical value: name and JSON argument text (the id is empty).
pub open spec fn call_model(c: ToolCall) -> (Seq<char>, Seq<char>) {
    (c.name@, c.arguments@)
}

/// A JSON tool call `{"name": ..., "parameters": ...}`: the name (a JSON string) and the
/// text of `parameters`, else of `arguments`, else `{}`.
pub open spec fn json_tool_call(t: Seq<char>) -> Option<(Seq<char>, Seq<char>)> {
    let t = trim(t);
    if t.len() == 0 || t[0] != '{' {
        None
    } else {
        match json_document(vstd::utf8::encode_utf8(t)) {
            Some(Json::Object(ms)) => match member_lookup(ms, seq!['n', 'a', 'm', 'e']) {
                Some(Json::Str(name)) => {
                    let params = match member_lookup(ms, seq!['p', 'a', 'r', 'a', 'm', 'e', 't', 'e', 'r', 's']) {
                        Some(p) => p,
                        None => match member_lookup(ms, seq!['a', 'r', 'g', 'u', 'm', 'e', 'n', 't', 's']) {
                            Some(a) => a,
                            None => Json::Object(Seq::empty()),
                        },
                    };
                    Some((name, to_text(params)))
                },
                _ => None,
            },
            _ => None,
        }
    }
}

#[verifier::spinoff_prover]
#[verifier::rlimit(60)]
fn try_parse_json_tool_call(src: &[char]) -> (r: Option<Vec<ToolCall>>)
    ensures
        match json_tool_call(src@) {
            Some(c) => r matches Some(v) && v@.len() == 1 && call_model(v@[0]) == c && v@[0].id@.len() == 0,
            None => r is None,
        },
{
    let t = trim_chars(src);
    if t.len() == 0 || t[0] != '{' {
        return None;
    }
    let text = crate::text::string_from_chars(t);
    let v = match parse_json_value(text.as_str()) {
        Ok(v) => v,
        Err(_) => return None,
    };
    let ghost vm = v.model();
    assert(json_document(vstd::utf8::encode_utf8(t@)) == Some(vm));
    let map = match v {
        JsonValue::Object(map) => map,
        _ => return None,
    };
    proof {
        crate::json::lemma_object_model(map);
        assert(vm == Json::Object(member_models(map@)));
        reveal_strlit("name");
        reveal_strlit("parameters");
        reveal_strlit("arguments");
    }
    let ghost ms = member_models(map@);
    let ghost key_name = seq!['n', 'a', 'm', 'e'];
    assert("name"@ == key_name);
    let name = match map_get(map.as_slice(), "name") {
        Some(JsonValue::String(s)) => s.clone(),
        _ => {
            assert(!(member_lookup(ms, key_name) matches Some(Json::Str(_))));
            assert(json_tool_call(src@) is None);
            return None;
        },
    };
    let ghost key_params = seq!['p', 'a', 'r', 'a', 'm', 'e', 't', 'e', 'r', 's'];
    let ghost key_args = seq!['a', 'r', 'g', 'u', 'm', 'e', 'n', 't', 's'];
    assert("parameters"@ == key_params);
    assert("arguments"@ == key_args);
    let ghost params = match member_lookup(ms, key_params) {
        Some(p) => p,
        None => match member_lookup(ms, key_args) {
            Some(a) => a,
            None => Json::Object(Seq::empty()),
        },
    };
    let arguments = match map_get(map.as_slice(), "parameters") {
        Some(p) => json_value_to_string(p),
        None => match map_get(map.as_slice(), "arguments") {
            Some(a) => json_value_to_string(a),
            None => {
                proof {
                    reveal_strlit("{}");
                    assert(to_text(Json::Object(Seq::empty())) =~= seq!['{', '}']);
                }
                "{}".to_owned()
            },
        },
    };
    assert(arguments@ == to_text(params));
    let call = ToolCall { id: String::new(), name, arguments };
    assert(json_tool_call(src@) == Some(call_model(call)));
    let mut calls: Vec<ToolCall> = Vec::new();
    calls.push(call);
    Some(calls)
}

/// A function name: non-empty ASCII letters, digits and `_`.
pub open spec fn is_ident(s: Seq<char>) -> bool {
    s.len() > 0 && forall|i: int| 0 <= i < s.len() ==> {
        let c = #[trigger] s[i];
        ('0' <= c && c <= '9') || ('a' <= c && c <= 'z') || ('A' <= c && c <= 'Z') || c == '_'
    }
}

/// One pythonic call `name(args)`: the name and the JSON object of its arguments.
pub open spec fn pythonic_call(piece: Seq<char>) -> Option<(Seq<char>, Seq<char>)> {
    let p = trim(piece);
    let paren = first_index(p, '(');
    if paren < 0 || p.len() == 0 || p.last() != ')' {
        None
    } else {
        let name = trim(p.take(paren));
        if !is_ident(name) {
            None
        } else {
            match kwargs_json(p.subrange(paren + 1, p.len() - 1)) {
                Some(args) => Some((name, args)),
                None => None,
            }
        }
    }
}

/// The calls of a list of pieces, if every piece is a call.
pub open spec fn pythonic_calls_of(ps: Seq<Seq<char>>) -> Option<Seq<(Seq<char>, Seq<char>)>>
    decreases ps.len(),
{
    if ps.len() == 0 {
        Some(Seq::empty())
    } else {
        match (pythonic_calls_of(ps.drop_last()), pythonic_call(ps.last())) {
            (Some(a), Some(b)) => Some(a.push(b)),
            _ => None,
        }
    }
}

/// Pythonic tool calls `[f(a=1), g()]`: a bracketed, comma-separated list of calls,
/// with no `"name"` anywhere in it.
pub open spec fn pythonic_tool_calls(t: Seq<char>) -> Option<Seq<(Seq<char>, Seq<char>)>> {
    let t = trim(t);
    if t.len() == 0 || t[0] != '[' || t.last() != ']' {
        None
    } else if contains_seq(t, seq!['"', 'n', 'a', 'm', 'e', '"']) {
        None
    } else {
        let inner = trim(t.subrange(1, t.len() - 1));
        if inner.len() == 0 {
            None
        } else {
            match pythonic_calls_of(split_top(inner)) {
                Some(cs) => if cs.len() == 0 { None } else { Some(cs) },
                None => None,
            }
        }
    }
}

proof fn lemma_calls_none(ps: Seq<Seq<char>>, i: int)
    requires
        0 <= i < ps.len(),
        pythonic_calls_of(ps.take(i + 1)) is None,
    ensures
        pythonic_calls_of(ps) is None,
    decreases ps.len(),
{
    if ps.len() > i + 1 {
        assert(ps.drop_last().take(i + 1) =~= ps.take(i + 1));
        lemma_calls_none(ps.drop_last(), i);
    } else {
        assert(ps.take(i + 1) =~= ps);
    }
}

fn is_ident_chars(s: &[char]) -> (b: bool)
    ensures
        b == is_ident(s@),
{
    if s.len() == 0 {
        return false;
    }
    let mut i: usize = 0;
    while i < s.len()
        invariant
            i <= s@.len(),
            s@.len() > 0,
            forall|k: int| 0 <= k < i ==> {
                let c = #[trigger] s@[k];
                ('0' <= c && c <= '9') || ('a' <= c && c <= 'z') || ('A' <= c && c <= 'Z') || c == '_'
            },
        decreases s@.len() - i,
    {
        let c = s[i];
        if !(('0' <= c && c <= '9') || ('a' <= c && c <= 'z') || ('A' <= c && c <= 'Z') || c == '_') {
            return false;
        }
        i = i + 1;
    }
    true
}

fn pythonic_call_chars(piece: &[char]) -> (r: Option<ToolCall>)
    requires
        piece@.len() <= isize::MAX,
    ensures
        match pythonic_call(piece@) {
            Some(c) => r matches Some(x) && call_model(x) == c && x.id@.len() == 0,
            None => r is None,
        },
{
    let p = trim_chars(piece);
    proof {
        lemma_first_index(p@, '(');
    }
    let paren = find_char(p, '(')?;
    let n = p.len();
    if n == 0 || p[n - 1] != ')' {
        return None;
    }
    let head = slice_subrange(p, 0, paren);
    let name = trim_chars(head);
    proof {
        assert(head@ =~= p@.take(paren as int));
    }
    if !is_ident_chars(name) {
        return None;
    }
    let args_src = slice_subrange(p, paren + 1, n - 1);
    let arguments = match kwargs_json_chars(args_src) {
        Ok(a) => a,
        Err(_) => return None,
    };
    Some(ToolCall { id: String::new(), name: crate::text::string_from_chars(name), arguments })
}

#[verifier::loop_isolation(false)]
fn try_parse_pythonic_tool_calls(src: &[char]) -> (r: Option<Vec<ToolCall>>)
    requires
        src@.len() <= isize::MAX,
    ensures
        match pythonic_tool_calls(src@) {
            Some(cs) => r matches Some(v) && v@.map_values(|c: ToolCall| call_model(c)) == cs
                && forall|i: int| 0 <= i < v@.len() ==> (#[trigger] v@[i]).id@.len() == 0,
            None => r is None,
        },
{
    let t = trim_chars(src);
    let n = t.len();
    if n == 0 || t[0] != '[' || t[n - 1] != ']' {
        return None;
    }
    let pat: [char; 6] = ['"', 'n', 'a', 'm', 'e', '"'];
    assert(pat@ =~= seq!['"', 'n', 'a', 'm', 'e', '"']);
    if contains_chars(t, &pat) {
        return None;
    }
    let inner = trim_chars(slice_subrange(t, 1, n - 1));
    if inner.len() == 0 {
        return None;
    }
    let pieces = split_top_level_calls(inner);
    let ghost ps = pieces@.map_values(|p: Vec<char>| p@);
    let mut calls: Vec<ToolCall> = Vec::new();
    assert(ps.take(0) =~= Seq::<Seq<char>>::empty());
    assert(calls@.map_values(|c: ToolCall| call_model(c)) =~= Seq::<(Seq<char>, Seq<char>)>::empty());
    let mut i: usize = 0;
    while i < pieces.len()
        invariant
            i <= pieces@.len(),
            ps == pieces@.map_values(|p: Vec<char>| p@),
            ps == split_top(inner@),
            inner@ == trim(t@.subrange(1, t@.len() - 1)),
            inner@.len() > 0,
            pythonic_calls_of(ps.take(i as int)) == Some(calls@.map_values(|c: ToolCall| call_model(c))),
            forall|k: int| 0 <= k < calls@.len() ==> (#[trigger] calls@[k]).id@.len() == 0,
            forall|k: int| 0 <= k < pieces@.len() ==> (#[trigger] pieces@[k])@.len() <= isize::MAX,
        decreases pieces@.len() - i,
    {
        proof {
            assert(ps.take(i + 1).drop_last() =~= ps.take(i as int));
            assert(ps.take(i + 1).last() == ps[i as int]);
            assert(ps[i as int] == pieces@[i as int]@);
        }
        let call = match pythonic_call_chars(pieces[i].as_slice()) {
            Some(c) => c,
            None => {
                proof {
                    lemma_calls_none(ps, i as int);
                }
                return None;
            },
        };
        let ghost before = calls@;
        calls.push(call);
        proof {
            assert(calls@.map_values(|c: ToolCall| call_model(c))
                =~= before.map_values(|c: ToolCall| call_model(c)).push(call_model(calls@.last())));
        }
        i = i + 1;
    }
    proof {
        assert(ps.take(pieces@.len() as int) =~= ps);
    }
    if calls.len() == 0 {
        None
    } else {
        Some(calls)
    }
}

/// A completion as a mathematical value: its text, or its calls.
pub enum OutputModel {
    /// Plain text.
    Text(Seq<char>),
    /// Tool calls: (name, arguments).
    Calls(Seq<(Seq<char>, Seq<char>)>),
}

/// `t` begins with `<|python_tag|>`.
pub open spec fn python_tag() -> Seq<char> {
    seq!['<', '|', 'p', 'y', 't', 'h', 'o', 'n', '_', 't', 'a', 'g', '|', '>']
}

/// How a completion is read: after trimming and dropping a `<|python_tag|>` prefix (and
/// trimming again), a JSON tool call, else pythonic tool calls, else the text as given.
pub open spec fn assistant_output(text: Seq<char>) -> OutputModel {
    let t0 = trim(text);
    let t = if t0.len() >= 14 && t0.take(14) == python_tag() { trim(t0.skip(14)) } else { t0 };
    match json_tool_call(t) {
        Some(c) => OutputModel::Calls(seq![c]),
        None => match pythonic_tool_calls(t) {
            Some(cs) => OutputModel::Calls(cs),
            None => OutputModel::Text(text),
        },
    }
}

/// A non-empty run of ASCII letters (either case), ASCII digits and `_`, by code point.
pub open spec fn ascii_word(s: Seq<char>) -> bool {
    s.len() > 0 && forall|i: int| 0 <= i < s.len() ==> {
        let v = #[trigger] s[i] as u32;
        ||| 0x30 <= v <= 0x39
        ||| 0x41 <= v <= 0x5A
        ||| 0x61 <= v <= 0x7A
        ||| v == 0x5F
    }
}

/// A call name is accepted exactly when it is a non-empty run of ASCII letters of either
/// case, digits and underscores.
pub proof fn lemma_call_names(s: Seq<char>)
    ensures
        is_ident(s) <==> ascii_word(s),
{
    if is_ident(s) {
        assert forall|i: int| 0 <= i < s.len() implies {
            let v = #[trigger] s[i] as u32;
            ||| 0x30 <= v <= 0x39
            ||| 0x41 <= v <= 0x5A
            ||| 0x61 <= v <= 0x7A
            ||| v == 0x5F
        } by {
            let c = s[i];
            assert(('0' <= c && c <= '9') || ('a' <= c && c <= 'z') || ('A' <= c && c <= 'Z') || c == '_');
        }
    }
    if ascii_word(s) {
        assert forall|i: int| 0 <= i < s.len() implies {
            let c = #[trigger] s[i];
            ('0' <= c && c <= '9') || ('a' <= c && c <= 'z') || ('A' <= c && c <= 'Z') || c == '_'
        } by {
            let c = s[i];
            let v = c as u32;
            assert((0x30 <= v <= 0x39) || (0x41 <= v <= 0x5A) || (0x61 <= v <= 0x7A) || v == 0x5F);
            vstd::utf8::char_u32_cast(c, v);
            vstd::utf8::char_u32_cast('_', '_' as u32);
            if v == 0x5F {
                assert(c == '_');
            }
        }
    }
}

proof fn lemma_trim_plain(s: Seq<char>)
    requires
        s.len() > 0,
        !is_white_space(s[0]),
        !is_white_space(s.last()),
    ensures
        trim(s) == s,
{
}

proof fn lemma_split_no_comma(cs: Seq<char>, n: nat)
    requires
        n <= cs.len(),
        forall|i: int| 0 <= i < cs.len() ==> cs[i] != ',',
    ensures
        split_scan(cs, n).pieces.len() == 0,
        split_scan(cs, n).start == 0,
    decreases n,
{
    if n > 0 {
        lemma_split_no_comma(cs, (n - 1) as nat);
        assert(cs[n - 1] != ',');
    }
}

/// `[name()]` with a name of ASCII letters of either case, digits and underscores is one
/// tool call of that name, with no arguments.
pub proof fn lemma_bare_pythonic_call(name: Seq<char>)
    requires
        ascii_word(name),
    ensures
        assistant_output(seq!['['] + name + seq!['(', ')', ']']) == OutputModel::Calls(
            seq![(name, seq!['{', '}'])],
        ),
{
    let t = seq!['['] + name + seq!['(', ')', ']'];
    let n = name.len();
    assert(t.len() == n + 4);
    assert(t[0] == '[');
    assert(t.last() == ']');
    lemma_trim_plain(t);
    if t.len() >= 14 {
        assert(t.take(14)[0] == '[');
        assert(python_tag()[0] == '<');
        assert(t.take(14) != python_tag());
    }
    assert(json_tool_call(t) is None);
    let quoted_name = seq!['"', 'n', 'a', 'm', 'e', '"'];
    assert forall|i: int| 0 <= i < t.len() implies #[trigger] t[i] != '"' by {
        if 1 <= i < n + 1 {
            assert(t[i] == name[i - 1]);
            let v = name[i - 1] as u32;
            assert((0x30 <= v <= 0x39) || (0x41 <= v <= 0x5A) || (0x61 <= v <= 0x7A) || v == 0x5F);
        }
    }
    assert(!contains_seq(t, quoted_name)) by {
        if contains_seq(t, quoted_name) {
            let i = choose|i: int| 0 <= i && i + quoted_name.len() <= t.len() && #[trigger] t.subrange(
                i,
                i + quoted_name.len(),
            ) == quoted_name;
            assert(t.subrange(i, i + 6)[0] == t[i]);
        }
    }
    let inner0 = t.subrange(1, t.len() - 1);
    let inner = name + seq!['(', ')'];
    assert(inner0 =~= inner);
    let v0 = name[0] as u32;
    assert((0x30 <= v0 <= 0x39) || (0x41 <= v0 <= 0x5A) || (0x61 <= v0 <= 0x7A) || v0 == 0x5F);
    assert(inner[0] == name[0]);
    lemma_trim_plain(inner);
    assert forall|i: int| 0 <= i < inner.len() implies inner[i] != ',' && (i < n ==> inner[i] != '(') by {
        if i < n {
            assert(inner[i] == name[i]);
            let v = name[i] as u32;
            assert((0x30 <= v <= 0x39) || (0x41 <= v <= 0x5A) || (0x61 <= v <= 0x7A) || v == 0x5F);
        }
    }
    lemma_split_no_comma(inner, inner.len());
    assert(inner.subrange(0, inner.len() as int) =~= inner);
    assert(Seq::<Seq<char>>::empty().push(inner) =~= seq![inner]);
    assert(split_top(inner) =~= seq![inner]);
    assert(seq![inner].drop_last() =~= Seq::<Seq<char>>::empty());
    lemma_first_index_at(inner, '(', n as int);
    assert(inner.take(n as int) =~= name);
    let vl = name.last() as u32;
    assert(name.last() == name[n - 1]);
    assert((0x30 <= vl <= 0x39) || (0x41 <= vl <= 0x5A) || (0x61 <= vl <= 0x7A) || vl == 0x5F);
    lemma_trim_plain(name);
    lemma_call_names(name);
    let args = inner.subrange(n + 1int, inner.len() - 1);
    assert(args.len() == 0);
    assert(trim(args) =~= args);
    assert(pythonic_call(inner) == Some((name, seq!['{', '}'])));
    assert(pythonic_calls_of(seq![inner]) == Some(seq![(name, seq!['{', '}'])])) by {
        assert(pythonic_calls_of(seq![inner].drop_last()) == Some(Seq::<(Seq<char>, Seq<char>)>::empty()));
        assert(Seq::<(Seq<char>, Seq<char>)>::empty().push((name, seq!['{', '}'])) =~= seq![(name, seq!['{', '}'])]);
    }
}

impl AssistantOutput {
    /// The output as a mathematical value.
    pub open spec fn model(&self) -> OutputModel {
        match self {
            AssistantOutput::Text(s) => OutputModel::Text(s@),
            AssistantOutput::ToolCalls(v) => OutputModel::Calls(v@.map_values(|c: ToolCall| call_model(c))),
        }
    }

    /// Every tool call has an empty id.
    pub open spec fn ids_empty(&self) -> bool {
        match self {
            AssistantOutput::Text(_) => true,
            AssistantOutput::ToolCalls(v) => forall|i: int| 0 <= i < v@.len() ==> (#[trigger] v@[i]).id@.len() == 0,
        }
    }
}

/// Parse an assistant completion into text or tool call(s).
pub fn parse_assistant_output(text: &str) -> (r: AssistantOutput)
    ensures
        r.model() == assistant_output(text@),
        r.ids_empty(),
{
    let cs = crate::text::str_chars(text);
    let t0 = trim_chars(cs.as_slice());
    let tag: [char; 14] = ['<', '|', 'p', 'y', 't', 'h', 'o', 'n', '_', 't', 'a', 'g', '|', '>'];
    assert(tag@ =~= python_tag());
    let t = if t0.len() >= 14 && same_chars(slice_subrange(t0, 0, 14), &tag) {
        trim_chars(slice_subrange(t0, 14, t0.len()))
    } else {
        t0
    };
    proof {
        if t0@.len() >= 14 {
            assert(t0@.subrange(0, 14) =~= t0@.take(14));
            assert(t0@.subrange(14, t0@.len() as int) =~= t0@.skip(14));
        }
    }
    if let Some(calls) = try_parse_json_tool_call(t) {
        proof {
            assert(calls@.map_values(|c: ToolCall| call_model(c)) =~= seq![call_model(calls@[0])]);
        }
        return AssistantOutput::ToolCalls(calls);
    }
    if let Some(calls) = try_parse_pythonic_tool_calls(t) {
        return AssistantOutput::ToolCalls(calls);
    }
    AssistantOutput::Text(text.to_owned())
}

} // verus!
