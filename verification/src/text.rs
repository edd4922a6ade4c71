//! Character-sequence utilities: substring search, whitespace trimming,
//! prefix stripping, and conversions between `str`/`String` and vectors of
//! characters. All scanning here is defined over `Seq<char>` views.
use vstd::prelude::*;

verus! {

use vstd::std_specs::iter::IteratorSpec;

/// A whitespace character as this library trims it: the ASCII blanks and
/// the no-break space.
pub open spec fn is_space(c: char) -> bool {
    c == ' ' || c == '\t' || c == '\n' || c == '\r' || c == '\u{0b}' || c == '\u{0c}' || c
        == '\u{a0}'
}

/// The pattern `p` occurs in `s` starting at index `i`.
pub open spec fn matches_at(s: Seq<char>, i: int, p: Seq<char>) -> bool {
    0 <= i && i + p.len() <= s.len() && s.subrange(i, i + p.len() as int) == p
}

/// Index of the first occurrence of `p` in `s` at or after `from`.
pub open spec fn spec_find(s: Seq<char>, from: int, p: Seq<char>) -> Option<int>
    decreases s.len() - from,
{
    if from < 0 || p.len() <= 0 || from + p.len() > s.len() {
        None
    } else if matches_at(s, from, p) {
        Some(from)
    } else {
        spec_find(s, from + 1, p)
    }
}

/// `s` contains the pattern `p`.
pub open spec fn contains_seq(s: Seq<char>, p: Seq<char>) -> bool {
    spec_find(s, 0, p) is Some
}

/// A found index marks a real occurrence, and the least one at or after
/// `from`.
pub proof fn lemma_find_found(s: Seq<char>, from: int, p: Seq<char>)
    requires
        spec_find(s, from, p) is Some,
    ensures
        from <= spec_find(s, from, p)->Some_0,
        matches_at(s, spec_find(s, from, p)->Some_0, p),
        forall|k: int|
            from <= k < spec_find(s, from, p)->Some_0 ==> !matches_at(s, k, p),
    decreases s.len() - from,
{
    if from < 0 || p.len() <= 0 || from + p.len() > s.len() {
    } else if matches_at(s, from, p) {
    } else {
        lemma_find_found(s, from + 1, p);
    }
}

/// When nothing is found, no occurrence begins at or after `from`.
pub proof fn lemma_find_none(s: Seq<char>, from: int, p: Seq<char>)
    requires
        spec_find(s, from, p) is None,
        0 <= from,
        p.len() >= 1,
    ensures
        forall|k: int| k >= from ==> !matches_at(s, k, p),
    decreases s.len() - from,
{
    if from + p.len() > s.len() {
    } else if matches_at(s, from, p) {
    } else {
        lemma_find_none(s, from + 1, p);
    }
}

/// Equal characters over `[i, i + p.len())` of `s` and all of `p`.
pub fn eq_at(s: &Vec<char>, i: usize, p: &Vec<char>) -> (r: bool)
    requires
        i + p@.len() <= s@.len(),
    ensures
        r == matches_at(s@, i as int, p@),
{
    let n = s.len();
    let mut k: usize = 0;
    while k < p.len()
        invariant
            0 <= k <= p@.len(),
            i + p@.len() <= s@.len(),
            n == s@.len(),
            forall|m: int| 0 <= m < k ==> s@[i + m] == p@[m],
        decreases p@.len() - k,
    {
        if s[i + k] != p[k] {
            assert(s@.subrange(i as int, i + p@.len()) != p@) by {
                assert(s@.subrange(i as int, i + p@.len())[k as int] != p@[k as int]);
            }
            return false;
        }
        k = k + 1;
    }
    assert(s@.subrange(i as int, i + p@.len()) =~= p@);
    true
}

/// First occurrence of `p` in `s` at or after `from`, if any.
pub fn find_at(s: &Vec<char>, from: usize, p: &Vec<char>) -> (r: Option<usize>)
    requires
        p@.len() >= 1,
    ensures
        match r {
            Some(j) => spec_find(s@, from as int, p@) == Some(j as int) && from <= j && j + p@.len()
                <= s@.len(),
            None => spec_find(s@, from as int, p@) is None,
        },
{
    let n = s.len();
    let m = p.len();
    if m > n || from > n - m {
        return None;
    }
    let mut i: usize = from;
    while i <= n - m
        invariant
            from <= i <= n - m + 1,
            m == p@.len(),
            n == s@.len(),
            1 <= m <= n,
            spec_find(s@, from as int, p@) == spec_find(s@, i as int, p@),
        decreases n - i,
    {
        if eq_at(s, i, p) {
            assert(spec_find(s@, i as int, p@) == Some(i as int));
            return Some(i);
        }
        i = i + 1;
    }
    assert(spec_find(s@, i as int, p@) is None);
    None
}

/// `s` contains `p`.
pub fn contains_at(s: &Vec<char>, p: &Vec<char>) -> (r: bool)
    requires
        p@.len() >= 1,
    ensures
        r == contains_seq(s@, p@),
{
    find_at(s, 0, p).is_some()
}

/// Index of the first character at or after `from` that is not whitespace.
pub open spec fn skip_spaces(s: Seq<char>, from: int) -> int
    decreases s.len() - from,
{
    if 0 <= from < s.len() && is_space(s[from]) {
        skip_spaces(s, from + 1)
    } else {
        from
    }
}

/// One past the last non-whitespace character strictly before `to`.
pub open spec fn rskip_spaces(s: Seq<char>, to: int) -> int
    decreases to,
{
    if 0 < to <= s.len() && is_space(s[to - 1]) {
        rskip_spaces(s, to - 1)
    } else {
        to
    }
}

/// `s` with leading and trailing whitespace removed.
pub open spec fn spec_trim(s: Seq<char>) -> Seq<char> {
    let a = skip_spaces(s, 0);
    let b = rskip_spaces(s, s.len() as int);
    if a <= b {
        s.subrange(a, b)
    } else {
        Seq::empty()
    }
}

pub proof fn lemma_rskip_spaces_bounds(s: Seq<char>, to: int)
    requires
        0 <= to <= s.len(),
    ensures
        0 <= rskip_spaces(s, to) <= to,
    decreases to,
{
    if 0 < to && is_space(s[to - 1]) {
        lemma_rskip_spaces_bounds(s, to - 1);
    }
}

/// Copy of `s[from..to]`.
pub fn sub_vec(s: &Vec<char>, from: usize, to: usize) -> (r: Vec<char>)
    requires
        from <= to <= s@.len(),
    ensures
        r@ == s@.subrange(from as int, to as int),
{
    let mut r: Vec<char> = Vec::new();
    let mut i: usize = from;
    while i < to
        invariant
            from <= i <= to <= s@.len(),
            r@ == s@.subrange(from as int, i as int),
        decreases to - i,
    {
        r.push(s[i]);
        proof {
            assert(s@.subrange(from as int, i + 1) =~= s@.subrange(from as int, i as int)
                + seq![s@[i as int]]);
        }
        i = i + 1;
    }
    r
}

fn is_space_char(c: char) -> (r: bool)
    ensures
        r == is_space(c),
{
    c == ' ' || c == '\t' || c == '\n' || c == '\r' || c == '\u{0b}' || c == '\u{0c}' || c
        == '\u{a0}'
}

/// `s` trimmed of leading and trailing whitespace.
pub fn trim_vec(s: &Vec<char>) -> (r: Vec<char>)
    ensures
        r@ == spec_trim(s@),
{
    let n = s.len();
    let mut a: usize = 0;
    while a < n && is_space_char(s[a])
        invariant
            0 <= a <= n,
            n == s@.len(),
            skip_spaces(s@, 0) == skip_spaces(s@, a as int),
        decreases n - a,
    {
        a = a + 1;
    }
    assert(skip_spaces(s@, a as int) == a);
    let mut b: usize = n;
    while b > a && is_space_char(s[b - 1])
        invariant
            a <= b <= n,
            n == s@.len(),
            rskip_spaces(s@, n as int) == rskip_spaces(s@, b as int),
        decreases b,
    {
        b = b - 1;
    }
    let r = sub_vec(s, a, b);
    proof {
        let b0 = rskip_spaces(s@, s@.len() as int);
        if b > a {
            assert(b0 == b);
        } else {
            lemma_rskip_spaces_bounds(s@, b as int);
            if a <= b0 {
                assert(b0 == a);
                assert(r@ =~= s@.subrange(a as int, b0));
            } else {
                assert(r@ =~= Seq::<char>::empty());
            }
        }
    }
    r
}

/// `s` with every leading repetition of `p` removed, as
/// `str::trim_start_matches` does; expressed as the index where the
/// unstripped tail begins.
pub open spec fn strip_prefix_reps(s: Seq<char>, from: int, p: Seq<char>) -> int
    decreases s.len() - from,
{
    if p.len() > 0 && matches_at(s, from, p) {
        strip_prefix_reps(s, from + p.len() as int, p)
    } else {
        from
    }
}

/// `s[from..]` with leading repetitions of `p` removed.
pub fn strip_prefix_all(s: &Vec<char>, p: &Vec<char>) -> (r: Vec<char>)
    requires
        p@.len() >= 1,
    ensures
        ({
            let j = strip_prefix_reps(s@, 0, p@);
            0 <= j <= s@.len() && r@ == s@.subrange(j, s@.len() as int)
        }),
{
    let n = s.len();
    let mut i: usize = 0;
    loop
        invariant
            0 <= i <= n,
            n == s@.len(),
            p@.len() >= 1,
            strip_prefix_reps(s@, 0, p@) == strip_prefix_reps(s@, i as int, p@),
        ensures
            0 <= i <= n,
            strip_prefix_reps(s@, 0, p@) == i,
        decreases n - i,
    {
        if p.len() <= n - i && eq_at(s, i, p) {
            i = i + p.len();
        } else {
            assert(!(p@.len() > 0 && matches_at(s@, i as int, p@)));
            break ;
        }
    }
    sub_vec(s, i, n)
}

/// The two character vectors hold the same characters.
pub fn chars_eq(a: &Vec<char>, b: &Vec<char>) -> (r: bool)
    ensures
        r == (a@ == b@),
{
    if a.len() != b.len() {
        return false;
    }
    if a.len() == 0 {
        assert(a@ =~= b@);
        return true;
    }
    let r = eq_at(a, 0, b);
    proof {
        assert(a@.subrange(0, b@.len() as int) =~= a@);
        if a@ == b@ {
            assert(matches_at(a@, 0, b@));
        }
    }
    r
}

/// The characters of `s`, in order.
pub fn str_chars(s: &str) -> (r: Vec<char>)
    ensures
        r@ == s@,
{
    let it = s.chars();
    chars_loop(it, s)
}

fn chars_loop(it: core::str::Chars<'_>, ghost_src: &str) -> (r: Vec<char>)
    requires
        it.obeys_prophetic_iter_laws(),
        it.decrease() is Some,
        vstd::std_specs::iter::IteratorSpec::remaining(&it) == ghost_src@,
    ensures
        r@ == ghost_src@,
{
    let mut it = it;
    let mut v: Vec<char> = Vec::new();
    loop
        invariant
            it.obeys_prophetic_iter_laws(),
            it.decrease() is Some,
            v@ + vstd::std_specs::iter::IteratorSpec::remaining(&it) == ghost_src@,
        ensures
            v@ == ghost_src@,
        decreases it.decrease()->0,
    {
        broadcast use vstd::string::next_postcondition;

        match it.next() {
            Some(c) => {
                v.push(c);
                proof {
                    assert(v@ + vstd::std_specs::iter::IteratorSpec::remaining(&it)
                        =~= ghost_src@);
                }
            },
            None => {
                proof {
                    assert(v@ =~= ghost_src@);
                }
                break ;
            },
        }
    }
    v
}

/// Relies on `String`'s `FromIterator<char>` implementation: collecting
/// characters yields the string of exactly those characters in order.
#[verifier::external_body]
pub fn chars_to_string(v: &Vec<char>) -> (r: String)
    ensures
        r@ == v@,
{
    v.iter().collect()
}

/// The characters of `s`, joined into a `String` after conversion of each
/// element.
pub fn join_lines(lines: &Vec<Vec<char>>, sep: char) -> (r: Vec<char>)
    ensures
        r@ == spec_join(lines.deep_view(), sep),
{
    let mut r: Vec<char> = Vec::new();
    let mut i: usize = 0;
    while i < lines.len()
        invariant
            0 <= i <= lines@.len(),
            r@ == spec_join(lines.deep_view().take(i as int), sep),
        decreases lines@.len() - i,
    {
        if i > 0 {
            r.push(sep);
        }
        let mut k: usize = 0;
        let line = &lines[i];
        while k < line.len()
            invariant
                0 <= k <= line@.len(),
                line@ == lines@[i as int]@,
                i < lines@.len(),
                r@ == spec_join(lines.deep_view().take(i as int), sep) + (if i > 0 {
                    seq![sep]
                } else {
                    Seq::<char>::empty()
                }) + line@.take(k as int),
            decreases line@.len() - k,
        {
            r.push(line[k]);
            k = k + 1;
        }
        proof {
            let dv = lines.deep_view();
            assert(dv.take(i + 1).drop_last() =~= dv.take(i as int));
            assert(dv.take(i + 1).last() == dv[i as int]);
            assert(line@.take(line@.len() as int) =~= line@);
            if i > 0 {
                assert(r@ =~= spec_join(dv.take(i + 1), sep));
            } else {
                assert(r@ =~= spec_join(dv.take(i + 1), sep));
            }
        }
        i = i + 1;
    }
    proof {
        assert(lines.deep_view().take(lines@.len() as int) =~= lines.deep_view());
    }
    r
}

/// The sequences of `lines` joined by the separator character.
pub open spec fn spec_join(lines: Seq<Seq<char>>, sep: char) -> Seq<char>
    decreases lines.len(),
{
    if lines.len() == 0 {
        Seq::empty()
    } else if lines.len() == 1 {
        lines[0]
    } else {
        spec_join(lines.drop_last(), sep) + seq![sep] + lines.last()
    }
}


/// The decimal writing of a number: digits, most significant first, with
/// no superfluous leading zero.
pub open spec fn dec_str(n: int) -> Seq<char>
    decreases n,
{
    if n < 0 {
        Seq::empty()
    } else if n < 10 {
        seq![(('0' as u32) + n as u32) as char]
    } else {
        dec_str(n / 10) + seq![(('0' as u32) + (n % 10) as u32) as char]
    }
}

/// Writes a number in decimal; mirrors `dec_str`.
pub fn u64_to_chars(n: u64) -> (r: Vec<char>)
    ensures
        r@ == dec_str(n as int),
    decreases n,
{
    if n < 10 {
        let d: u32 = '0' as u32 + (n as u32);
        let c = match char_from_u32(d) {
            Some(c) => c,
            None => ' ',
        };
        proof {
            assert(c == d as char);
        }
        let mut out: Vec<char> = Vec::new();
        out.push(c);
        proof {
            assert(out@ =~= seq![(('0' as u32) + n as u32) as char]);
        }
        out
    } else {
        let mut out = u64_to_chars(n / 10);
        let d: u32 = '0' as u32 + ((n % 10) as u32);
        let c = match char_from_u32(d) {
            Some(c) => c,
            None => ' ',
        };
        proof {
            assert(c == d as char);
        }
        let ghost pre = out@;
        out.push(c);
        proof {
            assert(out@ =~= pre + seq![(('0' as u32) + ((n as int) % 10) as u32) as char]);
        }
        out
    }
}

/// Relies on `char::from_u32`: returns `Some` exactly for the valid scalar
/// values (below the surrogate range, or between it and the maximum code
/// point), and then the character with that code.
#[verifier::external_body]
pub(crate) fn char_from_u32(v: u32) -> (r: Option<char>)
    ensures
        r is Some <==> (v < 0xD800 || (0xE000 <= v && v <= 0x10FFFF)),
        r matches Some(c) ==> c == v as char,
{
    char::from_u32(v)
}


/// The decimal writing of a signed number: a minus sign for a negative
/// value, then the digits.
pub open spec fn spec_i64_str(n: int) -> Seq<char> {
    if n >= 0 {
        dec_str(n)
    } else {
        seq!['-'] + dec_str(-n)
    }
}

/// Writes a signed number in decimal; mirrors `spec_i64_str`.
pub fn i64_to_chars(n: i64) -> (r: Vec<char>)
    ensures
        r@ == spec_i64_str(n as int),
{
    if n >= 0 {
        u64_to_chars(n as u64)
    } else {
        let mag: u64 = ((-(n + 1)) as u64) + 1;
        proof {
            assert(mag as int == -(n as int));
        }
        let mut out: Vec<char> = Vec::new();
        out.push('-');
        let mut digits = u64_to_chars(mag);
        let ghost gd = digits@;
        out.append(&mut digits);
        proof {
            assert(out@ =~= seq!['-'] + gd);
        }
        out
    }
}


/// Index of the start of the run of `/` characters that ends `s`.
pub open spec fn rstrip_slashes(s: Seq<char>, to: int) -> int
    decreases to,
{
    if 0 < to <= s.len() && s[to - 1] == '/' {
        rstrip_slashes(s, to - 1)
    } else {
        to
    }
}

/// The service address with trailing slashes removed, as every request
/// path is joined onto it with its own slash.
pub fn normalize_base_url(s: &str) -> (r: String)
    ensures
        ({
            let b = rstrip_slashes(s@, s@.len() as int);
            0 <= b <= s@.len() && r@ == s@.subrange(0, b)
        }),
{
    let sv = str_chars(s);
    let n = sv.len();
    let mut b: usize = n;
    while b > 0 && sv[b - 1] == '/'
        invariant
            0 <= b <= n,
            n == sv@.len(),
            sv@ == s@,
            rstrip_slashes(s@, n as int) == rstrip_slashes(s@, b as int),
        decreases b,
    {
        b = b - 1;
    }
    assert(rstrip_slashes(s@, b as int) == b);
    let keep = sub_vec(&sv, 0, b);
    chars_to_string(&keep)
}

} // verus!
