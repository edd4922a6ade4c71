//! A verified JSON reader. Changeset responses and API bodies arrive as
//! text; this module parses them into a value tree and offers the lookups
//! the pipeline needs (a nested field, a recursive key search).
use vstd::prelude::*;

verus! {

use crate::text::{spec_trim, contains_seq};

/// The mathematical model of a JSON value.
pub enum JVal {
    Null,
    Bool(bool),
    /// A number written as an integer that fits a signed 64-bit word.
    Int(i64),
    /// Any other number (fraction, exponent, or out of range); the
    /// pipeline never reads such a value.
    BigNum,
    Str(Seq<char>),
    Arr(Seq<JVal>),
    Obj(Seq<(Seq<char>, JVal)>),
}

/// An executable JSON value.
pub enum Json {
    Null,
    Bool(bool),
    Int(i64),
    BigNum,
    Str(Vec<char>),
    Arr(Vec<Json>),
    Obj(Vec<(Vec<char>, Json)>),
}

/// The model of an executable JSON value.
pub open spec fn j_view(j: Json) -> JVal
    decreases j,
{
    match j {
        Json::Null => JVal::Null,
        Json::Bool(b) => JVal::Bool(b),
        Json::Int(n) => JVal::Int(n),
        Json::BigNum => JVal::BigNum,
        Json::Str(t) => JVal::Str(t@),
        Json::Arr(es) => JVal::Arr(arr_view(es@)),
        Json::Obj(ms) => JVal::Obj(obj_view(ms@)),
    }
}

/// The models of a sequence of executable JSON values.
pub open spec fn arr_view(es: Seq<Json>) -> Seq<JVal>
    decreases es,
{
    if es.len() == 0 {
        Seq::empty()
    } else {
        arr_view(es.drop_last()).push(j_view(es.last()))
    }
}

/// The models of a sequence of executable JSON object members.
pub open spec fn obj_view(ms: Seq<(Vec<char>, Json)>) -> Seq<(Seq<char>, JVal)>
    decreases ms,
{
    if ms.len() == 0 {
        Seq::empty()
    } else {
        obj_view(ms.drop_last()).push((ms.last().0@, j_view(ms.last().1)))
    }
}

impl View for Json {
    type V = JVal;

    open spec fn view(&self) -> JVal {
        j_view(*self)
    }
}

/// Element models line up with the elements.
pub proof fn lemma_arr_view(es: Seq<Json>)
    ensures
        arr_view(es).len() == es.len(),
        forall|i: int| 0 <= i < es.len() ==> arr_view(es)[i] == j_view(#[trigger] es[i]),
    decreases es,
{
    if es.len() > 0 {
        lemma_arr_view(es.drop_last());
        assert forall|i: int| 0 <= i < es.len() implies arr_view(es)[i] == j_view(
            #[trigger] es[i],
        ) by {
            if i < es.len() - 1 {
                assert(es.drop_last()[i] == es[i]);
                assert(arr_view(es)[i] == arr_view(es.drop_last())[i]);
            } else {
                assert(es.last() == es[i]);
            }
        }
    }
}

/// Member models line up with the members.
pub proof fn lemma_obj_view(ms: Seq<(Vec<char>, Json)>)
    ensures
        obj_view(ms).len() == ms.len(),
        forall|i: int|
            0 <= i < ms.len() ==> obj_view(ms)[i] == ((#[trigger] ms[i]).0@, j_view(ms[i].1)),
    decreases ms,
{
    if ms.len() > 0 {
        lemma_obj_view(ms.drop_last());
        assert forall|i: int|
            0 <= i < ms.len() implies obj_view(ms)[i] == ((#[trigger] ms[i]).0@, j_view(
            ms[i].1,
        )) by {
            if i < ms.len() - 1 {
                assert(ms.drop_last()[i] == ms[i]);
                assert(obj_view(ms)[i] == obj_view(ms.drop_last())[i]);
            } else {
                assert(ms.last() == ms[i]);
            }
        }
    }
}

/// A JSON whitespace character.
pub open spec fn is_jws(c: char) -> bool {
    c == ' ' || c == '\t' || c == '\n' || c == '\r'
}

/// Index of the first character at or after `i` that is not JSON
/// whitespace.
pub open spec fn jws_end(s: Seq<char>, i: int) -> int
    decreases s.len() - i,
{
    if 0 <= i < s.len() && is_jws(s[i]) {
        jws_end(s, i + 1)
    } else {
        i
    }
}

fn skip_jws(s: &Vec<char>, i: usize) -> (r: usize)
    requires
        i <= s@.len(),
    ensures
        r as int == jws_end(s@, i as int),
        i <= r <= s@.len(),
{
    let n = s.len();
    let mut j: usize = i;
    while j < n && (s[j] == ' ' || s[j] == '\t' || s[j] == '\n' || s[j] == '\r')
        invariant
            i <= j <= n,
            n == s@.len(),
            jws_end(s@, i as int) == jws_end(s@, j as int),
        decreases n - j,
    {
        j = j + 1;
    }
    j
}

/// A hexadecimal digit.
pub open spec fn is_hex_digit(c: char) -> bool {
    ('0' <= c && c <= '9') || ('a' <= c && c <= 'f') || ('A' <= c && c <= 'F')
}

/// Value of a hexadecimal digit.
pub open spec fn hex_val(c: char) -> int {
    if '0' <= c && c <= '9' {
        c as u32 - '0' as u32
    } else if 'a' <= c && c <= 'f' {
        c as u32 - 'a' as u32 + 10
    } else {
        c as u32 - 'A' as u32 + 10
    }
}

/// The four hexadecimal digits starting at `i`, as a number.
pub open spec fn hex4(s: Seq<char>, i: int) -> int {
    hex_val(s[i]) * 0x1000 + hex_val(s[i + 1]) * 0x100 + hex_val(s[i + 2]) * 0x10 + hex_val(
        s[i + 3],
    )
}

/// All four characters starting at `i` are hexadecimal digits.
pub open spec fn hex4_ok(s: Seq<char>, i: int) -> bool {
    i + 4 <= s.len() && is_hex_digit(s[i]) && is_hex_digit(s[i + 1]) && is_hex_digit(s[i + 2])
        && is_hex_digit(s[i + 3])
}

/// Reads one escape sequence; `i` is the index just after the backslash.
/// Yields the characters it denotes and the next index.
pub open spec fn spec_escape(s: Seq<char>, i: int) -> Option<(Seq<char>, int)> {
    if i < 0 || i >= s.len() {
        None
    } else if s[i] == '"' {
        Some((seq!['"'], i + 1))
    } else if s[i] == '\\' {
        Some((seq!['\\'], i + 1))
    } else if s[i] == '/' {
        Some((seq!['/'], i + 1))
    } else if s[i] == 'b' {
        Some((seq!['\u{8}'], i + 1))
    } else if s[i] == 'f' {
        Some((seq!['\u{c}'], i + 1))
    } else if s[i] == 'n' {
        Some((seq!['\n'], i + 1))
    } else if s[i] == 'r' {
        Some((seq!['\r'], i + 1))
    } else if s[i] == 't' {
        Some((seq!['\t'], i + 1))
    } else if s[i] == 'u' && hex4_ok(s, i + 1) {
        let v = hex4(s, i + 1);
        if 0xD800 <= v < 0xDC00 {
            if i + 11 <= s.len() && s[i + 5] == '\\' && s[i + 6] == 'u' && hex4_ok(s, i + 7) {
                let lo = hex4(s, i + 7);
                if 0xDC00 <= lo < 0xE000 {
                    Some(
                        (
                            seq![(0x10000 + (v - 0xD800) * 0x400 + (lo - 0xDC00)) as u32 as char],
                            i + 11,
                        ),
                    )
                } else {
                    None
                }
            } else {
                None
            }
        } else if 0xDC00 <= v < 0xE000 {
            None
        } else {
            Some((seq![v as u32 as char], i + 5))
        }
    } else {
        None
    }
}

/// Reads the body of a string literal; `i` is the index just after the
/// opening quote. Yields the decoded characters and the index just after
/// the closing quote.
pub open spec fn spec_string_body(s: Seq<char>, i: int) -> Option<(Seq<char>, int)>
    decreases s.len() - i,
{
    if i < 0 || i >= s.len() {
        None
    } else if s[i] == '"' {
        Some((Seq::empty(), i + 1))
    } else if s[i] == '\\' {
        match spec_escape(s, i + 1) {
            Some((cs, j)) => if j > i + 1 && j <= s.len() {
                match spec_string_body(s, j) {
                    Some((rest, k)) => Some((cs + rest, k)),
                    None => None,
                }
            } else {
                None
            },
            None => None,
        }
    } else if (s[i] as u32) < 0x20 {
        None
    } else {
        match spec_string_body(s, i + 1) {
            Some((rest, k)) => Some((seq![s[i]] + rest, k)),
            None => None,
        }
    }
}

fn hex_digit_val(c: char) -> (r: Option<u32>)
    ensures
        r is Some <==> is_hex_digit(c),
        r matches Some(v) ==> v as int == hex_val(c) && v < 16,
{
    if '0' <= c && c <= '9' {
        Some(c as u32 - '0' as u32)
    } else if 'a' <= c && c <= 'f' {
        Some(c as u32 - 'a' as u32 + 10)
    } else if 'A' <= c && c <= 'F' {
        Some(c as u32 - 'A' as u32 + 10)
    } else {
        None
    }
}

/// Reads the four hexadecimal digits at `i`, if they are there.
fn read_hex4(s: &Vec<char>, i: usize) -> (r: Option<u32>)
    requires
        i <= s@.len(),
    ensures
        r is Some <==> hex4_ok(s@, i as int),
        r matches Some(v) ==> v as int == hex4(s@, i as int) && v < 0x10000,
{
    let n = s.len();
    if n < 4 || i > n - 4 {
        return None;
    }
    let d0 = hex_digit_val(s[i]);
    let d1 = hex_digit_val(s[i + 1]);
    let d2 = hex_digit_val(s[i + 2]);
    let d3 = hex_digit_val(s[i + 3]);
    match (d0, d1, d2, d3) {
        (Some(a), Some(b), Some(c), Some(d)) => Some(a * 0x1000 + b * 0x100 + c * 0x10 + d),
        _ => None,
    }
}

/// Reads one escape sequence into `out`; mirrors `spec_escape`.
fn read_escape(s: &Vec<char>, i: usize, out: &mut Vec<char>) -> (r: Option<usize>)
    requires
        i <= s@.len(),
    ensures
        match spec_escape(s@, i as int) {
            Some(p) => r matches Some(j) && j as int == p.1 && final(out)@ == old(out)@ + p.0 && i
                < j <= s@.len(),
            None => r is None && final(out)@ == old(out)@,
        },
{
    let n = s.len();
    if i >= n {
        return None;
    }
    let c = s[i];
    if c == '"' {
        out.push('"');
        Some(i + 1)
    } else if c == '\\' {
        out.push('\\');
        Some(i + 1)
    } else if c == '/' {
        out.push('/');
        Some(i + 1)
    } else if c == 'b' {
        out.push('\u{8}');
        Some(i + 1)
    } else if c == 'f' {
        out.push('\u{c}');
        Some(i + 1)
    } else if c == 'n' {
        out.push('\n');
        Some(i + 1)
    } else if c == 'r' {
        out.push('\r');
        Some(i + 1)
    } else if c == 't' {
        out.push('\t');
        Some(i + 1)
    } else if c == 'u' {
        match read_hex4(s, i + 1) {
            Some(v) => {
                if 0xD800 <= v && v < 0xDC00 {
                    if n - i >= 11 && s[i + 5] == '\\' && s[i + 6] == 'u' {
                        match read_hex4(s, i + 7) {
                            Some(lo) => {
                                if 0xDC00 <= lo && lo < 0xE000 {
                                    let code: u32 = 0x10000 + (v - 0xD800) * 0x400 + (lo - 0xDC00);
                                    match crate::text::char_from_u32(code) {
                                        Some(ch) => {
                                            out.push(ch);
                                            Some(i + 11)
                                        },
                                        None => {
                                            proof {
                                                assert(false);
                                            }
                                            None
                                        },
                                    }
                                } else {
                                    None
                                }
                            },
                            None => None,
                        }
                    } else {
                        None
                    }
                } else if 0xDC00 <= v && v < 0xE000 {
                    None
                } else {
                    match crate::text::char_from_u32(v) {
                        Some(ch) => {
                            out.push(ch);
                            Some(i + 5)
                        },
                        None => {
                            proof {
                                assert(false);
                            }
                            None
                        },
                    }
                }
            },
            None => None,
        }
    } else {
        None
    }
}

/// Reads a string body starting just after the opening quote, appending
/// the decoded characters to `out`; mirrors `spec_string_body`.
fn read_string_body(s: &Vec<char>, i: usize, out: &mut Vec<char>) -> (r: Option<usize>)
    requires
        i <= s@.len(),
    ensures
        match spec_string_body(s@, i as int) {
            Some(p) => r matches Some(j) && j as int == p.1 && final(out)@ == old(out)@ + p.0 && i
                < j <= s@.len(),
            None => r is None,
        },
    decreases s@.len() - i,
{
    let n = s.len();
    if i >= n {
        return None;
    }
    let c = s[i];
    if c == '"' {
        proof {
            assert(out@ =~= out@ + Seq::<char>::empty());
        }
        Some(i + 1)
    } else if c == '\\' {
        match read_escape(s, i + 1, out) {
            Some(j) => {
                match read_string_body(s, j, out) {
                    Some(k) => {
                        proof {
                            let e = spec_escape(s@, i + 1)->Some_0;
                            let rest = spec_string_body(s@, j as int)->Some_0;
                            assert(out@ =~= old(out)@ + (e.0 + rest.0));
                        }
                        Some(k)
                    },
                    None => None,
                }
            },
            None => None,
        }
    } else if (c as u32) < 0x20 {
        None
    } else {
        out.push(c);
        match read_string_body(s, i + 1, out) {
            Some(k) => {
                proof {
                    let rest = spec_string_body(s@, i + 1)->Some_0;
                    assert(out@ =~= old(out)@ + (seq![s@[i as int]] + rest.0));
                }
                Some(k)
            },
            None => None,
        }
    }
}

/// Index of the first character at or after `i` that is not a decimal
/// digit.
pub open spec fn digits_end(s: Seq<char>, i: int) -> int
    decreases s.len() - i,
{
    if 0 <= i < s.len() && crate::is_dec_digit(s[i]) {
        digits_end(s, i + 1)
    } else {
        i
    }
}

/// End of an optional fraction part beginning at `i`; `true` when one is
/// there.
pub open spec fn spec_frac_end(s: Seq<char>, i: int) -> Option<(bool, int)> {
    if 0 <= i < s.len() && s[i] == '.' {
        let fe = digits_end(s, i + 1);
        if fe > i + 1 {
            Some((true, fe))
        } else {
            None
        }
    } else {
        Some((false, i))
    }
}

/// End of an optional exponent part beginning at `i`; `true` when one is
/// there.
pub open spec fn spec_exp_end(s: Seq<char>, i: int) -> Option<(bool, int)> {
    if 0 <= i < s.len() && (s[i] == 'e' || s[i] == 'E') {
        let j = if i + 1 < s.len() && (s[i + 1] == '+' || s[i + 1] == '-') {
            i + 2
        } else {
            i + 1
        };
        let ee = digits_end(s, j);
        if ee > j {
            Some((true, ee))
        } else {
            None
        }
    } else {
        Some((false, i))
    }
}

/// Reads a number beginning at `i`: an optional minus, an integer part
/// without a superfluous leading zero, and optional fraction and exponent
/// parts. Integral values that fit a signed 64-bit word are kept exactly.
pub open spec fn spec_number(s: Seq<char>, i: int) -> Option<(JVal, int)> {
    if i < 0 || i >= s.len() {
        None
    } else {
        let neg = s[i] == '-';
        let i1 = if neg {
            i + 1
        } else {
            i
        };
        if !(0 <= i1 < s.len() && crate::is_dec_digit(s[i1])) {
            None
        } else if s[i1] == '0' && i1 + 1 < s.len() && crate::is_dec_digit(s[i1 + 1]) {
            None
        } else {
            let int_end = if s[i1] == '0' {
                i1 + 1
            } else {
                digits_end(s, i1)
            };
            match spec_frac_end(s, int_end) {
                None => None,
                Some((hf, fe)) => match spec_exp_end(s, fe) {
                    None => None,
                    Some((he, ee)) => if hf || he {
                        Some((JVal::BigNum, ee))
                    } else {
                        let m = crate::dec_val(s.subrange(i1, int_end));
                        if neg {
                            if -m >= i64::MIN {
                                Some((JVal::Int((-m) as i64), ee))
                            } else {
                                Some((JVal::BigNum, ee))
                            }
                        } else {
                            if m <= i64::MAX {
                                Some((JVal::Int(m as i64), ee))
                            } else {
                                Some((JVal::BigNum, ee))
                            }
                        }
                    },
                },
            }
        }
    }
}

/// Reads one JSON value beginning exactly at `i` (no leading whitespace).
pub open spec fn spec_value(s: Seq<char>, i: int) -> Option<(JVal, int)>
    decreases s.len() - i, 0int,
{
    if i < 0 || i >= s.len() {
        None
    } else if s[i] == '{' {
        match spec_members(s, i + 1, true) {
            Some((ms, j)) => Some((JVal::Obj(ms), j)),
            None => None,
        }
    } else if s[i] == '[' {
        match spec_elements(s, i + 1, true) {
            Some((es, j)) => Some((JVal::Arr(es), j)),
            None => None,
        }
    } else if s[i] == '"' {
        match spec_string_body(s, i + 1) {
            Some((t, j)) => Some((JVal::Str(t), j)),
            None => None,
        }
    } else if crate::text::matches_at(s, i, seq!['t', 'r', 'u', 'e']) {
        Some((JVal::Bool(true), i + 4))
    } else if crate::text::matches_at(s, i, seq!['f', 'a', 'l', 's', 'e']) {
        Some((JVal::Bool(false), i + 5))
    } else if crate::text::matches_at(s, i, seq!['n', 'u', 'l', 'l']) {
        Some((JVal::Null, i + 4))
    } else {
        spec_number(s, i)
    }
}

/// Reads object members from just after `{` (or just after a comma when
/// `first` is false) up to and past the closing brace.
pub open spec fn spec_members(s: Seq<char>, i: int, first: bool) -> Option<
    (Seq<(Seq<char>, JVal)>, int),
>
    decreases s.len() - i, 1int,
{
    if i < 0 || i > s.len() {
        None
    } else {
        let j = jws_end(s, i);
        if !(i <= j < s.len()) {
            None
        } else if first && s[j] == '}' {
            Some((Seq::empty(), j + 1))
        } else if s[j] == '"' {
            match spec_string_body(s, j + 1) {
                None => None,
                Some((key, k)) => {
                    let jc = jws_end(s, k);
                    if !(j < k <= jc && jc < s.len() && s[jc] == ':') {
                        None
                    } else {
                        let v0 = jws_end(s, jc + 1);
                        if !(i < v0 <= s.len()) {
                            None
                        } else {
                            match spec_value(s, v0) {
                                None => None,
                                Some((v, m)) => {
                                    let jn = jws_end(s, m);
                                    if !(v0 < m <= jn && jn < s.len()) {
                                        None
                                    } else if s[jn] == ',' {
                                        match spec_members(s, jn + 1, false) {
                                            None => None,
                                            Some((rest, e)) => Some(
                                                (seq![(key, v)] + rest, e),
                                            ),
                                        }
                                    } else if s[jn] == '}' {
                                        Some((seq![(key, v)], jn + 1))
                                    } else {
                                        None
                                    }
                                },
                            }
                        }
                    }
                },
            }
        } else {
            None
        }
    }
}

/// Reads array elements from just after `[` (or just after a comma when
/// `first` is false) up to and past the closing bracket.
pub open spec fn spec_elements(s: Seq<char>, i: int, first: bool) -> Option<(Seq<JVal>, int)>
    decreases s.len() - i, 1int,
{
    if i < 0 || i > s.len() {
        None
    } else {
        let j = jws_end(s, i);
        if !(i <= j < s.len()) {
            None
        } else if first && s[j] == ']' {
            Some((Seq::empty(), j + 1))
        } else {
            match spec_value(s, j) {
                None => None,
                Some((v, m)) => {
                    let jn = jws_end(s, m);
                    if !(j < m <= jn && jn < s.len()) {
                        None
                    } else if s[jn] == ',' {
                        match spec_elements(s, jn + 1, false) {
                            None => None,
                            Some((rest, e)) => Some((seq![v] + rest, e)),
                        }
                    } else if s[jn] == ']' {
                        Some((seq![v], jn + 1))
                    } else {
                        None
                    }
                },
            }
        }
    }
}

/// A whole JSON document: one value, possibly surrounded by whitespace,
/// reaching the end of the text.
pub open spec fn spec_parse_json(s: Seq<char>) -> Option<JVal> {
    let i = jws_end(s, 0);
    if 0 <= i <= s.len() {
        match spec_value(s, i) {
            Some((v, k)) => if 0 <= k <= s.len() && jws_end(s, k) == s.len() {
                Some(v)
            } else {
                None
            },
            None => None,
        }
    } else {
        None
    }
}

proof fn lemma_matches_at_index(s: Seq<char>, i: int, p: Seq<char>)
    requires
        crate::text::matches_at(s, i, p),
    ensures
        forall|k: int| 0 <= k < p.len() ==> s[i + k] == p[k],
{
    assert forall|k: int| 0 <= k < p.len() implies s[i + k] == p[k] by {
        assert(s.subrange(i, i + p.len() as int)[k] == p[k]);
    }
}

/// Everything in a digit run is a digit.
pub proof fn lemma_digits_run(s: Seq<char>, i: int)
    requires
        0 <= i <= s.len(),
    ensures
        i <= digits_end(s, i) <= s.len(),
        forall|k: int| i <= k < digits_end(s, i) ==> crate::is_dec_digit(#[trigger] s[k]),
    decreases s.len() - i,
{
    if i < s.len() && crate::is_dec_digit(s[i]) {
        lemma_digits_run(s, i + 1);
    }
}

pub fn digits_scan(s: &Vec<char>, i: usize) -> (r: usize)
    requires
        i <= s@.len(),
    ensures
        r as int == digits_end(s@, i as int),
        i <= r <= s@.len(),
{
    let n = s.len();
    let mut j: usize = i;
    while j < n && '0' <= s[j] && s[j] <= '9'
        invariant
            i <= j <= n,
            n == s@.len(),
            digits_end(s@, i as int) == digits_end(s@, j as int),
        decreases n - j,
    {
        j = j + 1;
    }
    j
}

/// Reads a number beginning at `i`; mirrors `spec_number`.
fn p_number(s: &Vec<char>, i: usize) -> (r: Option<(Json, usize)>)
    requires
        i <= s@.len(),
    ensures
        match spec_number(s@, i as int) {
            Some(p) => r matches Some(q) && q.0@ == p.0 && q.1 as int == p.1 && i < q.1 <= s@.len(),
            None => r is None,
        },
{
    let n = s.len();
    if i >= n {
        return None;
    }
    let neg = s[i] == '-';
    let i1 = if neg {
        i + 1
    } else {
        i
    };
    if i1 >= n {
        return None;
    }
    let c = s[i1];
    if !('0' <= c && c <= '9') {
        return None;
    }
    if c == '0' && i1 + 1 < n && '0' <= s[i1 + 1] && s[i1 + 1] <= '9' {
        return None;
    }
    let int_end = if c == '0' {
        i1 + 1
    } else {
        digits_scan(s, i1)
    };
    proof {
        lemma_digits_run(s@, i1 as int);
        if c != '0' {
            lemma_digits_run(s@, i1 + 1);
            assert(digits_end(s@, i1 as int) == digits_end(s@, i1 + 1));
        }
        assert(int_end > i1);
    }
    let fepair = if int_end < n && s[int_end] == '.' {
        let fs = int_end + 1;
        let fee = digits_scan(s, fs);
        if fee > fs {
            (true, fee)
        } else {
            return None;
        }
    } else {
        (false, int_end)
    };
    let hf = fepair.0;
    let fe = fepair.1;
    let eepair = if fe < n && (s[fe] == 'e' || s[fe] == 'E') {
        let es0 = fe + 1;
        let es = if es0 < n && (s[es0] == '+' || s[es0] == '-') {
            es0 + 1
        } else {
            es0
        };
        let eee = digits_scan(s, es);
        if eee > es {
            (true, eee)
        } else {
            return None;
        }
    } else {
        (false, fe)
    };
    let he = eepair.0;
    let ee = eepair.1;
    if hf || he {
        return Some((Json::BigNum, ee));
    }
    let ghost digs = s@.subrange(i1 as int, int_end as int);
    let mut acc: u64 = 0;
    let mut of = false;
    let mut j: usize = i1;
    while j < int_end
        invariant
            i1 <= j <= int_end <= n,
            n == s@.len(),
            digs == s@.subrange(i1 as int, int_end as int),
            crate::all_digits(digs),
            forall|k: int| i1 <= k < int_end ==> crate::is_dec_digit(#[trigger] s@[k]),
            !of ==> acc as int == crate::dec_val(digs.take(j - i1)),
            of ==> crate::dec_val(digs.take(j - i1)) > u64::MAX,
        decreases int_end - j,
    {
        let d: u32 = s[j] as u32 - '0' as u32;
        proof {
            assert(digs.take(j - i1 + 1).drop_last() =~= digs.take(j - i1));
            assert(digs.take(j - i1 + 1).last() == digs[j - i1]);
            assert(digs[j - i1] == s@[j as int]);
        }
        if of {
            proof {
                crate::lemma_dec_val_nonneg(digs.take(j - i1));
            }
        } else if acc > (u64::MAX - d as u64) / 10 {
            proof {
                assert(crate::dec_val(digs.take(j - i1 + 1)) > u64::MAX);
            }
            of = true;
        } else {
            acc = acc * 10 + d as u64;
        }
        j = j + 1;
    }
    proof {
        assert(digs.take(j - i1) =~= digs);
    }
    if of {
        proof {
            crate::lemma_dec_val_grows(digs, digs.len() as int);
        }
        return Some((Json::BigNum, ee));
    }
    if neg {
        if acc <= 0x7fff_ffff_ffff_ffffu64 {
            Some((Json::Int(-(acc as i64)), ee))
        } else if acc == 0x8000_0000_0000_0000u64 {
            Some((Json::Int(i64::MIN), ee))
        } else {
            Some((Json::BigNum, ee))
        }
    } else {
        if acc <= 0x7fff_ffff_ffff_ffffu64 {
            Some((Json::Int(acc as i64), ee))
        } else {
            Some((Json::BigNum, ee))
        }
    }
}

/// Reads one JSON value beginning exactly at `i`; mirrors `spec_value`.
fn p_value(s: &Vec<char>, i: usize) -> (r: Option<(Json, usize)>)
    requires
        i <= s@.len(),
    ensures
        match spec_value(s@, i as int) {
            Some(p) => r matches Some(q) && q.0@ == p.0 && q.1 as int == p.1 && i < q.1 <= s@.len(),
            None => r is None,
        },
    decreases s@.len() - i, 0int,
{
    let n = s.len();
    if i >= n {
        return None;
    }
    let c = s[i];
    if c == '{' {
        match p_members(s, i + 1, true) {
            Some((ms, j)) => {
                proof {
                    assert(j_view(Json::Obj(ms)) == JVal::Obj(obj_view(ms@)));
                }
                Some((Json::Obj(ms), j))
            },
            None => None,
        }
    } else if c == '[' {
        match p_elements(s, i + 1, true) {
            Some((es, j)) => Some((Json::Arr(es), j)),
            None => None,
        }
    } else if c == '"' {
        let mut out: Vec<char> = Vec::new();
        match read_string_body(s, i + 1, &mut out) {
            Some(j) => Some((Json::Str(out), j)),
            None => None,
        }
    } else if c == 't' {
        let p = vec!['t', 'r', 'u', 'e'];
        proof {
            assert(p@ =~= seq!['t', 'r', 'u', 'e']);
        }
        if n - i >= 4 && crate::text::eq_at(s, i, &p) {
            Some((Json::Bool(true), i + 4))
        } else {
            proof {
                lemma_value_literal_misses(s@, i as int, c);
            }
            None
        }
    } else if c == 'f' {
        let p = vec!['f', 'a', 'l', 's', 'e'];
        proof {
            assert(p@ =~= seq!['f', 'a', 'l', 's', 'e']);
        }
        if n - i >= 5 && crate::text::eq_at(s, i, &p) {
            Some((Json::Bool(false), i + 5))
        } else {
            proof {
                lemma_value_literal_misses(s@, i as int, c);
            }
            None
        }
    } else if c == 'n' {
        let p = vec!['n', 'u', 'l', 'l'];
        proof {
            assert(p@ =~= seq!['n', 'u', 'l', 'l']);
        }
        if n - i >= 4 && crate::text::eq_at(s, i, &p) {
            Some((Json::Null, i + 4))
        } else {
            proof {
                lemma_value_literal_misses(s@, i as int, c);
            }
            None
        }
    } else {
        proof {
            lemma_value_literal_misses(s@, i as int, c);
        }
        p_number(s, i)
    }
}

/// When the first character does not open a literal, the literal checks of
/// `spec_value` fail.
proof fn lemma_value_literal_misses(s: Seq<char>, i: int, c: char)
    requires
        0 <= i < s.len(),
        s[i] == c,
    ensures
        c != 't' ==> !crate::text::matches_at(s, i, seq!['t', 'r', 'u', 'e']),
        c != 'f' ==> !crate::text::matches_at(s, i, seq!['f', 'a', 'l', 's', 'e']),
        c != 'n' ==> !crate::text::matches_at(s, i, seq!['n', 'u', 'l', 'l']),
        c == 't' || c == 'f' || c == 'n' ==> spec_number(s, i) is None,
{
    if crate::text::matches_at(s, i, seq!['t', 'r', 'u', 'e']) {
        lemma_matches_at_index(s, i, seq!['t', 'r', 'u', 'e']);
    }
    if crate::text::matches_at(s, i, seq!['f', 'a', 'l', 's', 'e']) {
        lemma_matches_at_index(s, i, seq!['f', 'a', 'l', 's', 'e']);
    }
    if crate::text::matches_at(s, i, seq!['n', 'u', 'l', 'l']) {
        lemma_matches_at_index(s, i, seq!['n', 'u', 'l', 'l']);
    }
}

/// Reads object members; mirrors `spec_members`.
fn p_members(s: &Vec<char>, i: usize, first: bool) -> (r: Option<(Vec<(Vec<char>, Json)>, usize)>)
    requires
        i <= s@.len(),
    ensures
        match spec_members(s@, i as int, first) {
            Some(p) => r matches Some(q) && obj_view(q.0@) == p.0 && q.1 as int == p.1 && i < q.1
                <= s@.len(),
            None => r is None,
        },
    decreases s@.len() - i, 1int,
{
    let n = s.len();
    let j = skip_jws(s, i);
    if j >= n {
        return None;
    }
    if first && s[j] == '}' {
        let empty: Vec<(Vec<char>, Json)> = Vec::new();
        proof {
            lemma_obj_view(empty@);
            assert(obj_view(empty@) =~= Seq::<(Seq<char>, JVal)>::empty());
        }
        return Some((empty, j + 1));
    }
    if s[j] != '"' {
        return None;
    }
    let mut key: Vec<char> = Vec::new();
    let k = match read_string_body(s, j + 1, &mut key) {
        Some(k) => k,
        None => {
            return None;
        },
    };
    let jc = skip_jws(s, k);
    if jc >= n || s[jc] != ':' {
        return None;
    }
    let v0 = skip_jws(s, jc + 1);
    let (v, m) = match p_value(s, v0) {
        Some(p) => p,
        None => {
            return None;
        },
    };
    let jn = skip_jws(s, m);
    if jn >= n {
        return None;
    }
    let ghost gkey = key@;
    let ghost gv = j_view(v);
    if s[jn] == ',' {
        match p_members(s, jn + 1, false) {
            Some((rest, e)) => {
                let ghost grest = rest@;
                let mut rest = rest;
                rest.insert(0, (key, v));
                proof {
                    lemma_obj_view(rest@);
                    lemma_obj_view(grest);
                    assert(rest@[0].0@ == gkey && j_view(rest@[0].1) == gv);
                    assert forall|w: int| 0 <= w < obj_view(rest@).len() implies obj_view(rest@)[w]
                        == (seq![(gkey, gv)] + obj_view(grest))[w] by {
                        if w > 0 {
                            assert(rest@[w] == grest[w - 1]);
                        }
                    }
                    assert(obj_view(rest@) =~= seq![(gkey, gv)] + obj_view(grest));
                }
                Some((rest, e))
            },
            None => None,
        }
    } else if s[jn] == '}' {
        let mut one: Vec<(Vec<char>, Json)> = Vec::new();
        one.push((key, v));
        proof {
            lemma_obj_view(one@);
            assert(obj_view(one@) =~= seq![(gkey, gv)]);
        }
        Some((one, jn + 1))
    } else {
        None
    }
}

/// Reads array elements; mirrors `spec_elements`.
fn p_elements(s: &Vec<char>, i: usize, first: bool) -> (r: Option<(Vec<Json>, usize)>)
    requires
        i <= s@.len(),
    ensures
        match spec_elements(s@, i as int, first) {
            Some(p) => r matches Some(q) && arr_view(q.0@) == p.0 && q.1 as int == p.1 && i < q.1
                <= s@.len(),
            None => r is None,
        },
    decreases s@.len() - i, 1int,
{
    let n = s.len();
    let j = skip_jws(s, i);
    if j >= n {
        return None;
    }
    if first && s[j] == ']' {
        let empty: Vec<Json> = Vec::new();
        proof {
            lemma_arr_view(empty@);
            assert(arr_view(empty@) =~= Seq::<JVal>::empty());
        }
        return Some((empty, j + 1));
    }
    let (v, m) = match p_value(s, j) {
        Some(p) => p,
        None => {
            return None;
        },
    };
    let jn = skip_jws(s, m);
    if jn >= n {
        return None;
    }
    let ghost gv = j_view(v);
    if s[jn] == ',' {
        match p_elements(s, jn + 1, false) {
            Some((rest, e)) => {
                let ghost grest0 = rest@;
                let ghost grest = arr_view(rest@);
                let mut rest = rest;
                rest.insert(0, v);
                proof {
                    lemma_arr_view(rest@);
                    lemma_arr_view(grest0);
                    assert(j_view(rest@[0]) == gv);
                    assert forall|w: int| 0 <= w < arr_view(rest@).len() implies arr_view(rest@)[w]
                        == (seq![gv] + grest)[w] by {
                        if w > 0 {
                            assert(rest@[w] == grest0[w - 1]);
                        }
                    }
                    assert(arr_view(rest@) =~= seq![gv] + grest);
                }
                Some((rest, e))
            },
            None => None,
        }
    } else if s[jn] == ']' {
        let mut one: Vec<Json> = Vec::new();
        one.push(v);
        proof {
            lemma_arr_view(one@);
            assert(arr_view(one@) =~= seq![gv]);
        }
        Some((one, jn + 1))
    } else {
        None
    }
}

/// Parses a whole JSON document.
pub fn parse_json(s: &Vec<char>) -> (r: Option<Json>)
    ensures
        match spec_parse_json(s@) {
            Some(v) => r matches Some(j) && j@ == v,
            None => r is None,
        },
{
    let i = skip_jws(s, 0);
    match p_value(s, i) {
        Some((v, k)) => {
            let e = skip_jws(s, k);
            if e == s.len() {
                Some(v)
            } else {
                None
            }
        },
        None => None,
    }
}

/// The value stored under `key` among the members `ms`: a later member
/// with the same name shadows an earlier one.
pub open spec fn spec_obj_get(ms: Seq<(Seq<char>, JVal)>, key: Seq<char>) -> Option<JVal>
    decreases ms.len(),
{
    if ms.len() == 0 {
        None
    } else if ms.last().0 == key {
        Some(ms.last().1)
    } else {
        spec_obj_get(ms.drop_last(), key)
    }
}

/// Looks `key` up among the members of an object.
pub fn obj_get<'a>(ms: &'a Vec<(Vec<char>, Json)>, key: &Vec<char>) -> (r: Option<&'a Json>)
    ensures
        match spec_obj_get(obj_view(ms@), key@) {
            Some(v) => r matches Some(j) && j@ == v,
            None => r is None,
        },
{
    proof {
        lemma_obj_view(ms@);
    }
    let ghost full = obj_view(ms@);
    let mut i: usize = ms.len();
    proof {
        assert(full.take(i as int) =~= full);
    }
    while i > 0
        invariant
            0 <= i <= ms@.len(),
            full == obj_view(ms@),
            full.len() == ms@.len(),
            forall|w: int|
                0 <= w < ms@.len() ==> full[w] == ((#[trigger] ms@[w]).0@, j_view(ms@[w].1)),
            spec_obj_get(full, key@) == spec_obj_get(full.take(i as int), key@),
        decreases i,
    {
        i = i - 1;
        proof {
            assert(full.take(i + 1).last() == full[i as int]);
            assert(full.take(i + 1).drop_last() =~= full.take(i as int));
        }
        if crate::text::chars_eq(&ms[i].0, key) {
            return Some(&ms[i].1);
        }
    }
    proof {
        assert(full.take(0) =~= Seq::<(Seq<char>, JVal)>::empty());
    }
    None
}

/// The `payload.changeset` field of a changeset response: the rendered
/// HTML fragment, when the response has the expected shape.
pub open spec fn spec_payload_changeset(v: JVal) -> Option<Seq<char>> {
    match v {
        JVal::Obj(ms) => match spec_obj_get(ms, "payload"@) {
            Some(JVal::Obj(pm)) => match spec_obj_get(pm, "changeset"@) {
                Some(JVal::Str(h)) => Some(h),
                _ => None,
            },
            _ => None,
        },
        _ => None,
    }
}

/// The rendered HTML fragment inside a changeset response body.
pub fn payload_changeset<'a>(j: &'a Json) -> (r: Option<&'a Vec<char>>)
    ensures
        match spec_payload_changeset(j@) {
            Some(h) => r matches Some(t) && t@ == h,
            None => r is None,
        },
{
    match j {
        Json::Obj(ms) => {
            let pkey = crate::text::str_chars("payload");
            match obj_get(ms, &pkey) {
                Some(inner) => match inner {
                    Json::Obj(pm) => {
                        let ckey = crate::text::str_chars("changeset");
                        match obj_get(pm, &ckey) {
                            Some(cs) => match cs {
                                Json::Str(t) => Some(t),
                                _ => None,
                            },
                            None => None,
                        }
                    },
                    _ => None,
                },
                None => None,
            }
        },
        _ => None,
    }
}

/// The text holds at least one diff-indicative mark: a removed or added
/// line character, or the unified-diff filler the web interface uses.
pub open spec fn has_diff_marker(t: Seq<char>) -> bool {
    contains_seq(t, seq!['u', 'u', 'u', 'u']) || contains_seq(t, seq!['-']) || contains_seq(
        t,
        seq!['+'],
    )
}

/// A usable suggestion-text value: a string, not blank, with a
/// diff-indicative mark.
pub open spec fn usable_sugg(v: JVal) -> Option<Seq<char>> {
    match v {
        JVal::Str(t) => if spec_trim(t).len() > 0 && has_diff_marker(t) {
            Some(t)
        } else {
            None
        },
        _ => None,
    }
}

/// Depth-first search for a usable `suggestionText` member: an object is
/// asked for its own member first, then its values in order; an array is
/// searched element by element; the first hit wins.
pub open spec fn spec_find_sugg(v: JVal) -> Option<Seq<char>>
    decreases v, 0int, 0int,
{
    match v {
        JVal::Obj(ms) => {
            let own = match spec_obj_get(ms, "suggestionText"@) {
                Some(sv) => usable_sugg(sv),
                None => None,
            };
            if own is Some {
                own
            } else {
                spec_find_sugg_members(ms, 0)
            }
        },
        JVal::Arr(es) => spec_find_sugg_list(es, 0),
        _ => None,
    }
}

/// First hit of the search among member values from index `i` on.
pub open spec fn spec_find_sugg_members(ms: Seq<(Seq<char>, JVal)>, i: int) -> Option<Seq<char>>
    decreases ms, ms.len() - i, 1int,
{
    if i < 0 || i >= ms.len() {
        None
    } else {
        match spec_find_sugg(ms[i].1) {
            Some(t) => Some(t),
            None => spec_find_sugg_members(ms, i + 1),
        }
    }
}

/// First hit of the search among elements from index `i` on.
pub open spec fn spec_find_sugg_list(es: Seq<JVal>, i: int) -> Option<Seq<char>>
    decreases es, es.len() - i, 1int,
{
    if i < 0 || i >= es.len() {
        None
    } else {
        match spec_find_sugg(es[i]) {
            Some(t) => Some(t),
            None => spec_find_sugg_list(es, i + 1),
        }
    }
}

/// Whether this string value carries a usable suggestion.
fn usable_sugg_exec<'a>(j: &'a Json) -> (r: Option<&'a Vec<char>>)
    ensures
        match usable_sugg(j@) {
            Some(t) => r matches Some(v) && v@ == t,
            None => r is None,
        },
{
    match j {
        Json::Str(t) => {
            let trimmed = crate::text::trim_vec(t);
            if trimmed.len() == 0 {
                return None;
            }
            let m1 = vec!['u', 'u', 'u', 'u'];
            let m2 = vec!['-'];
            let m3 = vec!['+'];
            proof {
                assert(m1@ =~= seq!['u', 'u', 'u', 'u']);
                assert(m2@ =~= seq!['-']);
                assert(m3@ =~= seq!['+']);
            }
            if crate::text::contains_at(t, &m1) || crate::text::contains_at(t, &m2)
                || crate::text::contains_at(t, &m3) {
                Some(t)
            } else {
                None
            }
        },
        _ => None,
    }
}

/// Searches a parsed response for a usable `suggestionText` field.
pub fn find_sugg<'a>(j: &'a Json) -> (r: Option<&'a Vec<char>>)
    ensures
        match spec_find_sugg(j@) {
            Some(t) => r matches Some(v) && v@ == t,
            None => r is None,
        },
    decreases j, 0int, 0int,
{
    match j {
        Json::Obj(ms) => {
            let skey = crate::text::str_chars("suggestionText");
            let own = match obj_get(ms, &skey) {
                Some(sv) => usable_sugg_exec(sv),
                None => None,
            };
            match own {
                Some(t) => Some(t),
                None => find_sugg_members(ms, 0),
            }
        },
        Json::Arr(es) => find_sugg_list(es, 0),
        _ => None,
    }
}

fn find_sugg_members<'a>(ms: &'a Vec<(Vec<char>, Json)>, i: usize) -> (r: Option<&'a Vec<char>>)
    ensures
        match spec_find_sugg_members(obj_view(ms@), i as int) {
            Some(t) => r matches Some(v) && v@ == t,
            None => r is None,
        },
    decreases ms, ms@.len() - i, 1int,
{
    proof {
        lemma_obj_view(ms@);
    }
    if i >= ms.len() {
        return None;
    }
    match find_sugg(&ms[i].1) {
        Some(t) => Some(t),
        None => find_sugg_members(ms, i + 1),
    }
}

fn find_sugg_list<'a>(es: &'a Vec<Json>, i: usize) -> (r: Option<&'a Vec<char>>)
    ensures
        match spec_find_sugg_list(arr_view(es@), i as int) {
            Some(t) => r matches Some(v) && v@ == t,
            None => r is None,
        },
    decreases es, es@.len() - i, 1int,
{
    proof {
        lemma_arr_view(es@);
    }
    if i >= es.len() {
        return None;
    }
    match find_sugg(&es[i]) {
        Some(t) => Some(t),
        None => find_sugg_list(es, i + 1),
    }
}


/// A structural copy of a JSON value.
pub fn json_clone(j: &Json) -> (r: Json)
    ensures
        r@ == j@,
    decreases j,
{
    broadcast use vstd::std_specs::vec::group_vec_axioms;

    match j {
        Json::Null => Json::Null,
        Json::Bool(b) => Json::Bool(*b),
        Json::Int(n) => Json::Int(*n),
        Json::BigNum => Json::BigNum,
        Json::Str(t) => {
            let copy = crate::text::sub_vec(t, 0, t.len());
            proof {
                assert(copy@ =~= t@);
            }
            Json::Str(copy)
        },
        Json::Arr(es) => {
            let mut out: Vec<Json> = Vec::new();
            let mut k: usize = 0;
            proof {
                lemma_arr_view(es@);
            }
            while k < es.len()
                invariant
                    0 <= k <= es@.len(),
                    *j == Json::Arr(*es),
                    arr_view(es@).len() == es@.len(),
                    forall|w: int|
                        0 <= w < es@.len() ==> arr_view(es@)[w] == j_view(#[trigger] es@[w]),
                    arr_view(out@) == arr_view(es@).take(k as int),
                decreases es@.len() - k,
            {
                let ghost pre = arr_view(out@);
                let ghost gold = out@;
                proof {
                    assert(decreases_to!(*j => j->Arr_0));
                    assert(decreases_to!(j->Arr_0 => j->Arr_0@));
                    assert(decreases_to!(j->Arr_0@ => j->Arr_0@[k as int]));
                    assert(j->Arr_0@ == es@);
                }
                let c = json_clone(&es[k]);
                let ghost gc = j_view(c);
                out.push(c);
                proof {
                    lemma_arr_view(out@);
                    assert(out@.drop_last() =~= gold);
                    assert(arr_view(out@) =~= pre.push(gc));
                    assert(arr_view(es@).take(k + 1) =~= arr_view(es@).take(k as int).push(
                        arr_view(es@)[k as int],
                    ));
                }
                k = k + 1;
            }
            proof {
                assert(arr_view(es@).take(es@.len() as int) =~= arr_view(es@));
            }
            Json::Arr(out)
        },
        Json::Obj(ms) => {
            let mut out: Vec<(Vec<char>, Json)> = Vec::new();
            let mut k: usize = 0;
            proof {
                lemma_obj_view(ms@);
            }
            while k < ms.len()
                invariant
                    0 <= k <= ms@.len(),
                    *j == Json::Obj(*ms),
                    obj_view(ms@).len() == ms@.len(),
                    forall|w: int|
                        0 <= w < ms@.len() ==> obj_view(ms@)[w] == ((#[trigger] ms@[w]).0@, j_view(
                            ms@[w].1,
                        )),
                    obj_view(out@) == obj_view(ms@).take(k as int),
                decreases ms@.len() - k,
            {
                let ghost pre = obj_view(out@);
                let ghost gold = out@;
                let key = crate::text::sub_vec(&ms[k].0, 0, ms[k].0.len());
                proof {
                    assert(key@ =~= ms@[k as int].0@);
                    assert(decreases_to!(*j => j->Obj_0));
                    assert(decreases_to!(j->Obj_0 => j->Obj_0@));
                    assert(decreases_to!(j->Obj_0@ => j->Obj_0@[k as int]));
                    assert(decreases_to!(j->Obj_0@[k as int] => j->Obj_0@[k as int].1));
                    assert(j->Obj_0@ == ms@);
                }
                let c = json_clone(&ms[k].1);
                let ghost gk = key@;
                let ghost gc = j_view(c);
                out.push((key, c));
                proof {
                    lemma_obj_view(out@);
                    assert(out@.drop_last() =~= gold);
                    assert(obj_view(out@) =~= pre.push((gk, gc)));
                    assert(obj_view(ms@).take(k + 1) =~= obj_view(ms@).take(k as int).push(
                        obj_view(ms@)[k as int],
                    ));
                }
                k = k + 1;
            }
            proof {
                assert(obj_view(ms@).take(ms@.len() as int) =~= obj_view(ms@));
            }
            Json::Obj(out)
        },
    }
}

} // verus!
