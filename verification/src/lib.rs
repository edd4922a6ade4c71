//! Extraction of code-review discussion from a Phabricator Differential
//! revision: session-cookie handling, anti-forgery-token and changeset
//! reference discovery, scored candidate selection, and a layered parser
//! that recovers inline code-suggestion text from web-rendered changesets.
#![allow(unused_imports)]

pub mod api;
pub mod assemble;
pub mod cookies;
pub mod html;
pub mod json;
pub mod markdown;
pub mod refs;
pub mod score;
pub mod suggest;
pub mod text;
pub mod time;
pub mod token;

use vstd::prelude::*;

verus! {

/// True for the ten decimal digit characters.
pub open spec fn is_dec_digit(c: char) -> bool {
    '0' <= c && c <= '9'
}

/// Numeric value of a sequence of decimal digit characters, most
/// significant first.
pub open spec fn dec_val(s: Seq<char>) -> int
    decreases s.len(),
{
    if s.len() == 0 {
        0
    } else {
        dec_val(s.drop_last()) * 10 + (s.last() as u32 - '0' as u32)
    }
}

/// All characters of `s` are decimal digits.
pub open spec fn all_digits(s: Seq<char>) -> bool {
    forall|i: int| 0 <= i < s.len() ==> is_dec_digit(#[trigger] s[i])
}

/// What `str::parse::<u32>` accepts: an optional leading `+`, then one or
/// more digits whose value fits in a `u32`.
pub open spec fn spec_parse_u32(s: Seq<char>) -> Option<u32> {
    let body = if s.len() > 0 && s[0] == '+' {
        s.subrange(1, s.len() as int)
    } else {
        s
    };
    if body.len() > 0 && all_digits(body) && dec_val(body) <= u32::MAX {
        Some(dec_val(body) as u32)
    } else {
        None
    }
}

/// Index of the first character at or after `from` that is not `c`.
pub open spec fn spec_skip_char(s: Seq<char>, from: int, c: char) -> int
    decreases s.len() - from,
{
    if 0 <= from < s.len() && s[from] == c {
        spec_skip_char(s, from + 1, c)
    } else {
        from
    }
}

/// A revision identifier as accepted on the command line: the digits,
/// optionally preceded by `D` or `d` prefixes (leading `D`s are removed
/// first, then leading `d`s).
pub open spec fn spec_parse_diff_id(s: Seq<char>) -> Option<u32> {
    let i = spec_skip_char(s, 0, 'D');
    let j = spec_skip_char(s, i, 'd');
    spec_parse_u32(s.subrange(j, s.len() as int))
}

/// Growing a digit sequence never shrinks its value.
pub proof fn lemma_dec_val_grows(s: Seq<char>, k: int)
    requires
        0 <= k <= s.len(),
        all_digits(s),
    ensures
        dec_val(s.take(k)) <= dec_val(s),
        dec_val(s) >= 0,
    decreases s.len() - k,
{
    if k < s.len() {
        assert(s.take(k + 1).drop_last() =~= s.take(k));
        lemma_dec_val_grows(s, k + 1);
        assert(dec_val(s.take(k + 1)) == dec_val(s.take(k)) * 10 + (s.take(k + 1).last() as u32
            - '0' as u32));
        assert(dec_val(s.take(k)) >= 0) by {
            lemma_dec_val_nonneg(s.take(k));
        }
    } else {
        assert(s.take(k) =~= s);
        lemma_dec_val_nonneg(s);
    }
}

pub proof fn lemma_dec_val_nonneg(s: Seq<char>)
    requires
        all_digits(s),
    ensures
        dec_val(s) >= 0,
    decreases s.len(),
{
    if s.len() > 0 {
        assert(all_digits(s.drop_last()));
        lemma_dec_val_nonneg(s.drop_last());
    }
}

/// Parses the decimal digits of `s` from index `from` to the end, as
/// `str::parse::<u32>` would (without sign handling).
fn parse_u32_digits(s: &str, from: usize) -> (r: Option<u32>)
    requires
        from <= s@.len(),
    ensures
        r == ({
            let body = s@.subrange(from as int, s@.len() as int);
            if body.len() > 0 && all_digits(body) && dec_val(body) <= u32::MAX {
                Some::<u32>(dec_val(body) as u32)
            } else {
                None::<u32>
            }
        }),
{
    let ghost body = s@.subrange(from as int, s@.len() as int);
    let n = s.unicode_len();
    if from >= n {
        return None;
    }
    let mut i: usize = from;
    let mut acc: u32 = 0;
    while i < n
        invariant
            from <= i <= n,
            n == s@.len(),
            body == s@.subrange(from as int, n as int),
            all_digits(body.take(i - from)),
            acc == dec_val(body.take(i - from)),
        decreases n - i,
    {
        let c = s.get_char(i);
        if !('0' <= c && c <= '9') {
            assert(!is_dec_digit(body[i - from]));
            return None;
        }
        let d: u32 = c as u32 - '0' as u32;
        proof {
            assert(body.take(i - from + 1).drop_last() =~= body.take(i - from));
            assert(body.take(i - from + 1).last() == body[i - from]);
            assert(all_digits(body.take(i - from + 1)));
        }
        if acc > (u32::MAX - d) / 10 {
            proof {
                assert(dec_val(body.take(i - from + 1)) > u32::MAX);
                if all_digits(body) && dec_val(body) <= u32::MAX {
                    lemma_dec_val_grows(body, i - from + 1);
                }
            }
            return None;
        }
        acc = acc * 10 + d;
        i = i + 1;
    }
    proof {
        assert(body.take(i - from) =~= body);
    }
    Some(acc)
}

/// Reads a revision id given as digits, optionally preceded by `D` or `d`.
pub fn parse_diff_id(diff_id_str: &str) -> (r: Option<u32>)
    ensures
        r == spec_parse_diff_id(diff_id_str@),
{
    let s = diff_id_str;
    let n = s.unicode_len();
    let mut i: usize = 0;
    while i < n && s.get_char(i) == 'D'
        invariant
            0 <= i <= n,
            n == s@.len(),
            spec_skip_char(s@, 0, 'D') == spec_skip_char(s@, i as int, 'D'),
        decreases n - i,
    {
        i = i + 1;
    }
    assert(spec_skip_char(s@, i as int, 'D') == i);
    let ghost i0 = i as int;
    let mut j: usize = i;
    while j < n && s.get_char(j) == 'd'
        invariant
            i0 <= j <= n,
            n == s@.len(),
            spec_skip_char(s@, i0, 'd') == spec_skip_char(s@, j as int, 'd'),
        decreases n - j,
    {
        j = j + 1;
    }
    assert(spec_skip_char(s@, j as int, 'd') == j);
    let ghost rest = s@.subrange(j as int, n as int);
    if j < n && s.get_char(j) == '+' {
        proof {
            assert(rest[0] == '+');
            assert(rest.subrange(1, rest.len() as int) =~= s@.subrange(j + 1, n as int));
        }
        parse_u32_digits(s, j + 1)
    } else {
        proof {
            if rest.len() > 0 {
                assert(rest[0] == s@[j as int]);
            }
        }
        parse_u32_digits(s, j)
    }
}


} // verus!
