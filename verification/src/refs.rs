//! Discovery of changeset reference tokens in a revision's web page: an
//! ordered cascade of textual patterns, stopping at the first that yields
//! anything, with duplicates dropped and first-seen order kept. Also the
//! revision-id readers and the adjacent-identifier fallback.
use vstd::prelude::*;

verus! {

use crate::text::{
    spec_find,
    find_at,
    sub_vec,
    str_chars,
    chars_to_string,
    chars_eq,
    dec_str,
    u64_to_chars,
};
use crate::json::{digits_end, digits_scan};
use crate::{is_dec_digit, dec_val};

/// A word character, as a boundary test knows it.
pub open spec fn is_word(c: char) -> bool {
    ('a' <= c && c <= 'z') || ('A' <= c && c <= 'Z') || ('0' <= c && c <= '9') || c == '_'
}

fn is_word_char(c: char) -> (r: bool)
    ensures
        r == is_word(c),
{
    ('a' <= c && c <= 'z') || ('A' <= c && c <= 'Z') || ('0' <= c && c <= '9') || c == '_'
}

/// A whitespace character as the pattern scanners accept between a
/// reference key and its value.
pub open spec fn is_pws(c: char) -> bool {
    c == ' ' || c == '\t' || c == '\n' || c == '\r' || c == '\u{b}' || c == '\u{c}'
}

/// Index of the first character at or after `i` that is no such
/// whitespace.
pub open spec fn pws_end(s: Seq<char>, i: int) -> int
    decreases s.len() - i,
{
    if 0 <= i < s.len() && is_pws(s[i]) {
        pws_end(s, i + 1)
    } else {
        i
    }
}

pub fn pws_scan(s: &Vec<char>, i: usize) -> (r: usize)
    requires
        i <= s@.len(),
    ensures
        r as int == pws_end(s@, i as int),
        i <= r <= s@.len(),
{
    let n = s.len();
    let mut j: usize = i;
    while j < n && (s[j] == ' ' || s[j] == '\t' || s[j] == '\n' || s[j] == '\r' || s[j] == '\u{b}'
        || s[j] == '\u{c}')
        invariant
            i <= j <= n,
            n == s@.len(),
            pws_end(s@, i as int) == pws_end(s@, j as int),
        decreases n - j,
    {
        j = j + 1;
    }
    j
}

/// Occurrences of `ref=` followed by digits; each capture is the digit
/// run.
pub open spec fn spec_p1(s: Seq<char>, i: int) -> Seq<Seq<char>>
    decreases s.len() - i,
{
    if i < 0 {
        Seq::empty()
    } else {
        match spec_find(s, i, "ref="@) {
            None => Seq::empty(),
            Some(a) => {
                let ds = a + 4;
                let de = digits_end(s, ds);
                if de > ds && de <= s.len() && de > i {
                    seq![s.subrange(ds, de)] + spec_p1(s, de)
                } else if ds > i && ds <= s.len() {
                    spec_p1(s, ds)
                } else {
                    Seq::empty()
                }
            },
        }
    }
}

/// Occurrences of a quoted JSON pair `"ref":"digits"`.
pub open spec fn spec_p2a(s: Seq<char>, i: int) -> Seq<Seq<char>>
    decreases s.len() - i,
{
    if i < 0 {
        Seq::empty()
    } else {
        match spec_find(s, i, "\"ref\":\""@) {
            None => Seq::empty(),
            Some(a) => {
                let ds = a + 7;
                let de = digits_end(s, ds);
                if de > ds && de < s.len() && s[de] == '"' && de + 1 > i {
                    seq![s.subrange(ds, de)] + spec_p2a(s, de + 1)
                } else if a + 1 > i && a + 1 <= s.len() {
                    spec_p2a(s, a + 1)
                } else {
                    Seq::empty()
                }
            },
        }
    }
}

/// Occurrences of a quoted script pair `'ref':` with a quoted number.
pub open spec fn spec_p2b(s: Seq<char>, i: int) -> Seq<Seq<char>>
    decreases s.len() - i,
{
    if i < 0 {
        Seq::empty()
    } else {
        match spec_find(s, i, "'ref':"@) {
            None => Seq::empty(),
            Some(a) => {
                let w = pws_end(s, a + 6);
                let ds = w + 1;
                let de = if w < s.len() && s[w] == '\'' && ds <= s.len() {
                    digits_end(s, ds)
                } else {
                    -1
                };
                if de > ds && de < s.len() && s[de] == '\'' && de + 1 > i {
                    seq![s.subrange(ds, de)] + spec_p2b(s, de + 1)
                } else if a + 1 > i && a + 1 <= s.len() {
                    spec_p2b(s, a + 1)
                } else {
                    Seq::empty()
                }
            },
        }
    }
}

/// Occurrences of a bare script pair `ref:` with a quoted number.
pub open spec fn spec_p2c(s: Seq<char>, i: int) -> Seq<Seq<char>>
    decreases s.len() - i,
{
    if i < 0 {
        Seq::empty()
    } else {
        match spec_find(s, i, "ref:"@) {
            None => Seq::empty(),
            Some(a) => {
                let w = pws_end(s, a + 4);
                let ds = w + 1;
                let de = if w < s.len() && s[w] == '\'' && ds <= s.len() {
                    digits_end(s, ds)
                } else {
                    -1
                };
                if de > ds && de < s.len() && s[de] == '\'' && de + 1 > i {
                    seq![s.subrange(ds, de)] + spec_p2c(s, de + 1)
                } else if a + 1 > i && a + 1 <= s.len() {
                    spec_p2c(s, a + 1)
                } else {
                    Seq::empty()
                }
            },
        }
    }
}

/// Occurrences of a bare script pair `ref:` with an unquoted number.
pub open spec fn spec_p2d(s: Seq<char>, i: int) -> Seq<Seq<char>>
    decreases s.len() - i,
{
    if i < 0 {
        Seq::empty()
    } else {
        match spec_find(s, i, "ref:"@) {
            None => Seq::empty(),
            Some(a) => {
                let ds = pws_end(s, a + 4);
                let de = if ds <= s.len() {
                    digits_end(s, ds)
                } else {
                    -1
                };
                if de > ds && de <= s.len() && de > i {
                    seq![s.subrange(ds, de)] + spec_p2d(s, de)
                } else if a + 1 > i && a + 1 <= s.len() {
                    spec_p2d(s, a + 1)
                } else {
                    Seq::empty()
                }
            },
        }
    }
}

/// An identifier embedded in an element id such as `C…OL…` or `C…NL…`: a
/// `C` on a word boundary, seven or eight digits, `O` or `N`, `L`, and a
/// line number.
pub open spec fn p2e_at(s: Seq<char>, a: int, k: int) -> bool {
    let ds = a + 1;
    let de = digits_end(s, ds);
    de - ds >= k && ds + k + 2 < s.len() && (s[ds + k] == 'O' || s[ds + k] == 'N') && s[ds + k + 1]
        == 'L' && is_dec_digit(s[ds + k + 2])
}

/// Occurrences of the element-id encoding; each capture is the seven or
/// eight digits after `C`.
pub open spec fn spec_p2e(s: Seq<char>, i: int) -> Seq<Seq<char>>
    decreases s.len() - i,
{
    if i < 0 || i >= s.len() {
        Seq::empty()
    } else if s[i] == 'C' && (i == 0 || !is_word(s[i - 1])) {
        if p2e_at(s, i, 8) {
            seq![s.subrange(i + 1, i + 9)] + (if i + 9 <= s.len() {
                spec_p2e(s, i + 9)
            } else {
                Seq::empty()
            })
        } else if p2e_at(s, i, 7) {
            seq![s.subrange(i + 1, i + 8)] + (if i + 8 <= s.len() {
                spec_p2e(s, i + 8)
            } else {
                Seq::empty()
            })
        } else {
            spec_p2e(s, i + 1)
        }
    } else {
        spec_p2e(s, i + 1)
    }
}

/// Bare identifiers: maximal digit runs of exactly seven or eight digits
/// on word boundaries.
pub open spec fn spec_p3(s: Seq<char>, i: int) -> Seq<Seq<char>>
    decreases s.len() - i,
{
    if i < 0 || i >= s.len() {
        Seq::empty()
    } else if is_dec_digit(s[i]) && (i == 0 || !is_word(s[i - 1])) {
        let de = digits_end(s, i);
        if de <= i || de > s.len() {
            Seq::empty()
        } else if (de - i == 7 || de - i == 8) && (de == s.len() || !is_word(s[de])) {
            seq![s.subrange(i, de)] + spec_p3(s, de)
        } else {
            spec_p3(s, de)
        }
    } else {
        spec_p3(s, i + 1)
    }
}

/// Identifiers named by a `ref=` query parameter of a changeset path.
pub open spec fn spec_p4(s: Seq<char>, i: int) -> Seq<Seq<char>>
    decreases s.len() - i,
{
    if i < 0 {
        Seq::empty()
    } else {
        match spec_find(s, i, "differential/changeset/"@) {
            None => Seq::empty(),
            Some(a) => match spec_find(s, a + 23, seq!['?']) {
                None => Seq::empty(),
                Some(q) => match spec_find(s, q + 1, "ref="@) {
                    None => Seq::empty(),
                    Some(j) => {
                        let seg_ok = match spec_find(s, q + 1, seq!['&']) {
                            Some(amp) => j + 4 <= amp,
                            None => true,
                        };
                        let ds = j + 4;
                        let de = digits_end(s, ds);
                        if seg_ok && de > ds && de <= s.len() && de > i {
                            seq![s.subrange(ds, de)] + spec_p4(s, de)
                        } else if q + 1 > i && q + 1 <= s.len() {
                            spec_p4(s, q + 1)
                        } else {
                            Seq::empty()
                        }
                    },
                },
            },
        }
    }
}

/// `xs` with later repetitions of a value dropped: first occurrences, in
/// order.
pub open spec fn spec_dedup(xs: Seq<Seq<char>>) -> Seq<Seq<char>>
    decreases xs.len(),
{
    if xs.len() == 0 {
        Seq::empty()
    } else {
        let rest = spec_dedup(xs.drop_last());
        if rest.contains(xs.last()) {
            rest
        } else {
            rest.push(xs.last())
        }
    }
}

/// `xs` without the captures of fewer than seven digits.
pub open spec fn spec_keep7(xs: Seq<Seq<char>>) -> Seq<Seq<char>>
    decreases xs.len(),
{
    if xs.len() == 0 {
        Seq::empty()
    } else {
        let rest = spec_keep7(xs.drop_last());
        if xs.last().len() >= 7 {
            rest.push(xs.last())
        } else {
            rest
        }
    }
}

/// The ordered cascade over a revision page: the plain query parameter;
/// then the five alternate encodings pooled, kept only at plausible
/// length; then the bare identifier scan; then the changeset-path
/// pattern. The first stage that yields anything wins.
pub open spec fn spec_discover_refs(s: Seq<char>) -> Seq<Seq<char>> {
    let p1 = spec_dedup(spec_p1(s, 0));
    if p1.len() > 0 {
        p1
    } else {
        let g2 = spec_dedup(
            spec_keep7(spec_p2a(s, 0) + spec_p2b(s, 0) + spec_p2c(s, 0) + spec_p2d(s, 0)
                + spec_p2e(s, 0)),
        );
        if g2.len() > 0 {
            g2
        } else {
            let p3 = spec_dedup(spec_p3(s, 0));
            if p3.len() > 0 {
                p3
            } else {
                spec_dedup(spec_p4(s, 0))
            }
        }
    }
}

fn collect_p1(s: &Vec<char>) -> (r: Vec<Vec<char>>)
    ensures
        r.deep_view() == spec_p1(s@, 0),
{
    let pat = str_chars("ref=");
    proof {
        reveal_strlit("ref=");
    }
    let n = s.len();
    let mut out: Vec<Vec<char>> = Vec::new();
    let mut i: usize = 0;
    loop
        invariant
            0 <= i <= n,
            n == s@.len(),
            pat@ == "ref="@,
            pat@.len() == 4,
            spec_p1(s@, 0) == out.deep_view() + spec_p1(s@, i as int),
        ensures
            out.deep_view() == spec_p1(s@, 0),
        decreases n - i,
    {
        let ghost pre = out.deep_view();
        match find_at(s, i, &pat) {
            None => {
                proof {
                    assert(pre =~~= pre + spec_p1(s@, i as int));
                }
                break ;
            },
            Some(a) => {
                let ds = a + 4;
                let de = digits_scan(s, ds);
                if de > ds {
                    let cap = sub_vec(s, ds, de);
                    let ghost gc = cap@;
                    out.push(cap);
                    proof {
                        assert(out.deep_view() =~~= pre.push(gc));
                        assert(pre + (seq![gc] + spec_p1(s@, de as int)) =~~= out.deep_view()
                            + spec_p1(s@, de as int));
                    }
                    i = de;
                } else {
                    i = ds;
                }
            },
        }
    }
    out
}

fn collect_p2a(s: &Vec<char>) -> (r: Vec<Vec<char>>)
    ensures
        r.deep_view() == spec_p2a(s@, 0),
{
    let pat = str_chars("\"ref\":\"");
    proof {
        reveal_strlit("\"ref\":\"");
    }
    let n = s.len();
    let mut out: Vec<Vec<char>> = Vec::new();
    let mut i: usize = 0;
    loop
        invariant
            0 <= i <= n,
            n == s@.len(),
            pat@ == "\"ref\":\""@,
            pat@.len() == 7,
            spec_p2a(s@, 0) == out.deep_view() + spec_p2a(s@, i as int),
        ensures
            out.deep_view() == spec_p2a(s@, 0),
        decreases n - i,
    {
        let ghost pre = out.deep_view();
        match find_at(s, i, &pat) {
            None => {
                proof {
                    assert(pre =~~= pre + spec_p2a(s@, i as int));
                }
                break ;
            },
            Some(a) => {
                let ds = a + 7;
                let de = digits_scan(s, ds);
                if de > ds && de < n && s[de] == '"' {
                    let cap = sub_vec(s, ds, de);
                    let ghost gc = cap@;
                    out.push(cap);
                    proof {
                        assert(out.deep_view() =~~= pre.push(gc));
                        assert(pre + (seq![gc] + spec_p2a(s@, de + 1)) =~~= out.deep_view()
                            + spec_p2a(s@, de + 1));
                    }
                    i = de + 1;
                } else {
                    i = a + 1;
                }
            },
        }
    }
    out
}

fn collect_p2b(s: &Vec<char>) -> (r: Vec<Vec<char>>)
    ensures
        r.deep_view() == spec_p2b(s@, 0),
{
    let pat = str_chars("'ref':");
    proof {
        reveal_strlit("'ref':");
    }
    let n = s.len();
    let mut out: Vec<Vec<char>> = Vec::new();
    let mut i: usize = 0;
    loop
        invariant
            0 <= i <= n,
            n == s@.len(),
            pat@ == "'ref':"@,
            pat@.len() == 6,
            spec_p2b(s@, 0) == out.deep_view() + spec_p2b(s@, i as int),
        ensures
            out.deep_view() == spec_p2b(s@, 0),
        decreases n - i,
    {
        let ghost pre = out.deep_view();
        match find_at(s, i, &pat) {
            None => {
                proof {
                    assert(pre =~~= pre + spec_p2b(s@, i as int));
                }
                break ;
            },
            Some(a) => {
                let w = pws_scan(s, a + 6);
                let mut stepped = false;
                if w < n && s[w] == '\'' {
                    let ds = w + 1;
                    let de = digits_scan(s, ds);
                    if de > ds && de < n && s[de] == '\'' {
                        let cap = sub_vec(s, ds, de);
                        let ghost gc = cap@;
                        out.push(cap);
                        proof {
                            assert(out.deep_view() =~~= pre.push(gc));
                            assert(pre + (seq![gc] + spec_p2b(s@, de + 1)) =~~= out.deep_view()
                                + spec_p2b(s@, de + 1));
                        }
                        i = de + 1;
                        stepped = true;
                    }
                }
                if !stepped {
                    i = a + 1;
                }
            },
        }
    }
    out
}

fn collect_p2c(s: &Vec<char>) -> (r: Vec<Vec<char>>)
    ensures
        r.deep_view() == spec_p2c(s@, 0),
{
    let pat = str_chars("ref:");
    proof {
        reveal_strlit("ref:");
    }
    let n = s.len();
    let mut out: Vec<Vec<char>> = Vec::new();
    let mut i: usize = 0;
    loop
        invariant
            0 <= i <= n,
            n == s@.len(),
            pat@ == "ref:"@,
            pat@.len() == 4,
            spec_p2c(s@, 0) == out.deep_view() + spec_p2c(s@, i as int),
        ensures
            out.deep_view() == spec_p2c(s@, 0),
        decreases n - i,
    {
        let ghost pre = out.deep_view();
        match find_at(s, i, &pat) {
            None => {
                proof {
                    assert(pre =~~= pre + spec_p2c(s@, i as int));
                }
                break ;
            },
            Some(a) => {
                let w = pws_scan(s, a + 4);
                let mut stepped = false;
                if w < n && s[w] == '\'' {
                    let ds = w + 1;
                    let de = digits_scan(s, ds);
                    if de > ds && de < n && s[de] == '\'' {
                        let cap = sub_vec(s, ds, de);
                        let ghost gc = cap@;
                        out.push(cap);
                        proof {
                            assert(out.deep_view() =~~= pre.push(gc));
                            assert(pre + (seq![gc] + spec_p2c(s@, de + 1)) =~~= out.deep_view()
                                + spec_p2c(s@, de + 1));
                        }
                        i = de + 1;
                        stepped = true;
                    }
                }
                if !stepped {
                    i = a + 1;
                }
            },
        }
    }
    out
}

fn collect_p2d(s: &Vec<char>) -> (r: Vec<Vec<char>>)
    ensures
        r.deep_view() == spec_p2d(s@, 0),
{
    let pat = str_chars("ref:");
    proof {
        reveal_strlit("ref:");
    }
    let n = s.len();
    let mut out: Vec<Vec<char>> = Vec::new();
    let mut i: usize = 0;
    loop
        invariant
            0 <= i <= n,
            n == s@.len(),
            pat@ == "ref:"@,
            pat@.len() == 4,
            spec_p2d(s@, 0) == out.deep_view() + spec_p2d(s@, i as int),
        ensures
            out.deep_view() == spec_p2d(s@, 0),
        decreases n - i,
    {
        let ghost pre = out.deep_view();
        match find_at(s, i, &pat) {
            None => {
                proof {
                    assert(pre =~~= pre + spec_p2d(s@, i as int));
                }
                break ;
            },
            Some(a) => {
                let ds = pws_scan(s, a + 4);
                let de = digits_scan(s, ds);
                if de > ds {
                    let cap = sub_vec(s, ds, de);
                    let ghost gc = cap@;
                    out.push(cap);
                    proof {
                        assert(out.deep_view() =~~= pre.push(gc));
                        assert(pre + (seq![gc] + spec_p2d(s@, de as int)) =~~= out.deep_view()
                            + spec_p2d(s@, de as int));
                    }
                    i = de;
                } else {
                    i = a + 1;
                }
            },
        }
    }
    out
}

fn p2e_check(s: &Vec<char>, a: usize, k: usize) -> (r: bool)
    requires
        a < s@.len(),
        k <= 8,
    ensures
        r == p2e_at(s@, a as int, k as int),
{
    let n = s.len();
    let ds = a + 1;
    let de = digits_scan(s, ds);
    if de - ds >= k && n - ds > k + 2 {
        (s[ds + k] == 'O' || s[ds + k] == 'N') && s[ds + k + 1] == 'L' && '0' <= s[ds + k + 2]
            && s[ds + k + 2] <= '9'
    } else {
        false
    }
}

fn collect_p2e(s: &Vec<char>) -> (r: Vec<Vec<char>>)
    ensures
        r.deep_view() == spec_p2e(s@, 0),
{
    let n = s.len();
    let mut out: Vec<Vec<char>> = Vec::new();
    let mut i: usize = 0;
    loop
        invariant
            0 <= i <= n,
            n == s@.len(),
            spec_p2e(s@, 0) == out.deep_view() + spec_p2e(s@, i as int),
        ensures
            out.deep_view() == spec_p2e(s@, 0),
        decreases n - i,
    {
        let ghost pre = out.deep_view();
        if i >= n {
            proof {
                assert(pre =~~= pre + spec_p2e(s@, i as int));
            }
            break ;
        }
        let boundary = i == 0 || !is_word_char(s[i - 1]);
        if s[i] == 'C' && boundary {
            if p2e_check(s, i, 8) {
                let cap = sub_vec(s, i + 1, i + 9);
                let ghost gc = cap@;
                out.push(cap);
                proof {
                    assert(out.deep_view() =~~= pre.push(gc));
                    assert(pre + (seq![gc] + spec_p2e(s@, i + 9)) =~~= out.deep_view() + spec_p2e(
                        s@,
                        i + 9,
                    ));
                }
                i = i + 9;
            } else if p2e_check(s, i, 7) {
                let cap = sub_vec(s, i + 1, i + 8);
                let ghost gc = cap@;
                out.push(cap);
                proof {
                    assert(out.deep_view() =~~= pre.push(gc));
                    assert(pre + (seq![gc] + spec_p2e(s@, i + 8)) =~~= out.deep_view() + spec_p2e(
                        s@,
                        i + 8,
                    ));
                }
                i = i + 8;
            } else {
                i = i + 1;
            }
        } else {
            i = i + 1;
        }
    }
    out
}

fn collect_p3(s: &Vec<char>) -> (r: Vec<Vec<char>>)
    ensures
        r.deep_view() == spec_p3(s@, 0),
{
    let n = s.len();
    let mut out: Vec<Vec<char>> = Vec::new();
    let mut i: usize = 0;
    loop
        invariant
            0 <= i <= n,
            n == s@.len(),
            spec_p3(s@, 0) == out.deep_view() + spec_p3(s@, i as int),
        ensures
            out.deep_view() == spec_p3(s@, 0),
        decreases n - i,
    {
        let ghost pre = out.deep_view();
        if i >= n {
            proof {
                assert(pre =~~= pre + spec_p3(s@, i as int));
            }
            break ;
        }
        let boundary = i == 0 || !is_word_char(s[i - 1]);
        if '0' <= s[i] && s[i] <= '9' && boundary {
            let de = digits_scan(s, i);
            if (de - i == 7 || de - i == 8) && (de == n || !is_word_char(s[de])) {
                let cap = sub_vec(s, i, de);
                let ghost gc = cap@;
                out.push(cap);
                proof {
                    assert(out.deep_view() =~~= pre.push(gc));
                    assert(pre + (seq![gc] + spec_p3(s@, de as int)) =~~= out.deep_view()
                        + spec_p3(s@, de as int));
                }
                i = de;
            } else {
                proof {
                    assert(digits_end(s@, i as int) == digits_end(s@, i + 1));
                    crate::json::lemma_digits_run(s@, i + 1);
                }
                i = de;
            }
        } else {
            i = i + 1;
        }
    }
    out
}

fn collect_p4(s: &Vec<char>) -> (r: Vec<Vec<char>>)
    ensures
        r.deep_view() == spec_p4(s@, 0),
{
    let pat = str_chars("differential/changeset/");
    let refp = str_chars("ref=");
    let quest = str_chars("?");
    let amp = str_chars("&");
    proof {
        reveal_strlit("differential/changeset/");
        reveal_strlit("ref=");
        reveal_strlit("?");
        reveal_strlit("&");
        assert(quest@ =~= seq!['?']);
        assert(amp@ =~= seq!['&']);
    }
    let n = s.len();
    let mut out: Vec<Vec<char>> = Vec::new();
    let mut i: usize = 0;
    loop
        invariant
            0 <= i <= n,
            n == s@.len(),
            pat@ == "differential/changeset/"@,
            pat@.len() == 23,
            refp@ == "ref="@,
            refp@.len() == 4,
            quest@ == seq!['?'],
            amp@ == seq!['&'],
            spec_p4(s@, 0) == out.deep_view() + spec_p4(s@, i as int),
        ensures
            out.deep_view() == spec_p4(s@, 0),
        decreases n - i,
    {
        let ghost pre = out.deep_view();
        match find_at(s, i, &pat) {
            None => {
                proof {
                    assert(pre =~~= pre + spec_p4(s@, i as int));
                }
                break ;
            },
            Some(a) => {
                let q = match find_at(s, a + 23, &quest) {
                    Some(q) => q,
                    None => {
                        proof {
                            assert(pre =~~= pre + spec_p4(s@, i as int));
                        }
                        break ;
                    },
                };
                let j = match find_at(s, q + 1, &refp) {
                    Some(j) => j,
                    None => {
                        proof {
                            assert(pre =~~= pre + spec_p4(s@, i as int));
                        }
                        break ;
                    },
                };
                let seg_ok = match find_at(s, q + 1, &amp) {
                    Some(am) => j + 4 <= am,
                    None => true,
                };
                let ds = j + 4;
                let de = digits_scan(s, ds);
                if seg_ok && de > ds {
                    let cap = sub_vec(s, ds, de);
                    let ghost gc = cap@;
                    out.push(cap);
                    proof {
                        assert(out.deep_view() =~~= pre.push(gc));
                        assert(pre + (seq![gc] + spec_p4(s@, de as int)) =~~= out.deep_view()
                            + spec_p4(s@, de as int));
                    }
                    i = de;
                } else {
                    i = q + 1;
                }
            },
        }
    }
    out
}

/// Whether `xs` already holds the characters of `x`.
fn vec_contains(xs: &Vec<Vec<char>>, x: &Vec<char>) -> (r: bool)
    ensures
        r == xs.deep_view().contains(x@),
{
    let mut k: usize = 0;
    while k < xs.len()
        invariant
            0 <= k <= xs@.len(),
            forall|w: int| 0 <= w < k ==> xs.deep_view()[w] != x@,
        decreases xs@.len() - k,
    {
        if chars_eq(&xs[k], x) {
            proof {
                assert(xs.deep_view()[k as int] == x@);
            }
            return true;
        }
        proof {
            assert(xs.deep_view()[k as int] == xs@[k as int]@);
        }
        k = k + 1;
    }
    proof {
        if xs.deep_view().contains(x@) {
            let w = choose|w: int| 0 <= w < xs.deep_view().len() && xs.deep_view()[w] == x@;
            assert(xs.deep_view()[w] == x@);
        }
    }
    false
}

/// Drops repeated captures, keeping first occurrences in order; mirrors
/// `spec_dedup`.
fn dedup(xs: &Vec<Vec<char>>) -> (r: Vec<Vec<char>>)
    ensures
        r.deep_view() == spec_dedup(xs.deep_view()),
{
    let ghost full = xs.deep_view();
    let mut out: Vec<Vec<char>> = Vec::new();
    let mut k: usize = 0;
    while k < xs.len()
        invariant
            0 <= k <= xs@.len(),
            full == xs.deep_view(),
            full.len() == xs@.len(),
            out.deep_view() == spec_dedup(full.take(k as int)),
        decreases xs@.len() - k,
    {
        let ghost pre = out.deep_view();
        proof {
            assert(full.take(k + 1).drop_last() =~~= full.take(k as int));
            assert(full.take(k + 1).last() == full[k as int]);
            assert(full[k as int] == xs@[k as int]@);
        }
        if !vec_contains(&out, &xs[k]) {
            let cap = sub_vec(&xs[k], 0, xs[k].len());
            let ghost gc = cap@;
            out.push(cap);
            proof {
                assert(gc =~= full[k as int]);
                assert(out.deep_view() =~~= pre.push(gc));
                assert(out.deep_view() =~~= spec_dedup(full.take(k + 1)));
            }
        } else {
            proof {
                assert(out.deep_view() =~~= spec_dedup(full.take(k + 1)));
            }
        }
        k = k + 1;
    }
    proof {
        assert(full.take(xs@.len() as int) =~~= full);
    }
    out
}

/// Keeps the captures of at least seven digits; mirrors `spec_keep7`.
fn keep7(xs: &Vec<Vec<char>>) -> (r: Vec<Vec<char>>)
    ensures
        r.deep_view() == spec_keep7(xs.deep_view()),
{
    let ghost full = xs.deep_view();
    let mut out: Vec<Vec<char>> = Vec::new();
    let mut k: usize = 0;
    while k < xs.len()
        invariant
            0 <= k <= xs@.len(),
            full == xs.deep_view(),
            full.len() == xs@.len(),
            out.deep_view() == spec_keep7(full.take(k as int)),
        decreases xs@.len() - k,
    {
        let ghost pre = out.deep_view();
        proof {
            assert(full.take(k + 1).drop_last() =~~= full.take(k as int));
            assert(full.take(k + 1).last() == full[k as int]);
            assert(full[k as int] == xs@[k as int]@);
        }
        if xs[k].len() >= 7 {
            let cap = sub_vec(&xs[k], 0, xs[k].len());
            let ghost gc = cap@;
            out.push(cap);
            proof {
                assert(gc =~= full[k as int]);
                assert(out.deep_view() =~~= pre.push(gc));
                assert(out.deep_view() =~~= spec_keep7(full.take(k + 1)));
            }
        } else {
            proof {
                assert(xs@[k as int]@.len() < 7);
                assert(out.deep_view() =~~= spec_keep7(full.take(k + 1)));
            }
        }
        k = k + 1;
    }
    proof {
        assert(full.take(xs@.len() as int) =~~= full);
    }
    out
}

/// Discovers changeset reference tokens in a revision page, cascading
/// through the patterns; duplicates are dropped, first-seen order kept.
/// The result may be empty; that is absence, not failure.
pub fn discover_refs(html: &str) -> (r: Vec<String>)
    ensures
        r.deep_view() == spec_discover_refs(html@),
{
    let s = str_chars(html);
    let refs = discover_refs_chars(&s);
    let mut out: Vec<String> = Vec::new();
    let mut k: usize = 0;
    while k < refs.len()
        invariant
            0 <= k <= refs@.len(),
            out.deep_view() == refs.deep_view().take(k as int),
        decreases refs@.len() - k,
    {
        let ghost pre = out.deep_view();
        let item = chars_to_string(&refs[k]);
        let ghost gi = item@;
        out.push(item);
        proof {
            assert(gi == refs.deep_view()[k as int]);
            assert(out.deep_view() =~~= pre.push(gi));
            assert(refs.deep_view().take(k + 1) =~~= refs.deep_view().take(k as int).push(
                refs.deep_view()[k as int],
            ));
        }
        k = k + 1;
    }
    proof {
        assert(refs.deep_view().take(refs@.len() as int) =~~= refs.deep_view());
    }
    out
}

/// The cascade over a page already held as characters.
pub fn discover_refs_chars(s: &Vec<char>) -> (r: Vec<Vec<char>>)
    ensures
        r.deep_view() == spec_discover_refs(s@),
{
    let p1 = collect_p1(s);
    let p1d = dedup(&p1);
    if p1d.len() > 0 {
        proof {
            assert(p1d.deep_view().len() == p1d@.len());
        }
        return p1d;
    }
    proof {
        assert(p1d.deep_view().len() == p1d@.len());
    }
    let mut pooled = collect_p2a(s);
    let mut pb = collect_p2b(s);
    let mut pc = collect_p2c(s);
    let mut pd = collect_p2d(s);
    let mut pe = collect_p2e(s);
    let ghost ga = pooled.deep_view();
    let ghost gb = pb.deep_view();
    let ghost gc = pc.deep_view();
    let ghost gd = pd.deep_view();
    let ghost ge = pe.deep_view();
    pooled.append(&mut pb);
    pooled.append(&mut pc);
    pooled.append(&mut pd);
    pooled.append(&mut pe);
    proof {
        assert(pooled.deep_view() =~~= ga + gb + gc + gd + ge);
        assert(ga + gb + gc + gd + ge =~~= spec_p2a(s@, 0) + spec_p2b(s@, 0) + spec_p2c(s@, 0)
            + spec_p2d(s@, 0) + spec_p2e(s@, 0));
    }
    let kept = keep7(&pooled);
    let g2 = dedup(&kept);
    if g2.len() > 0 {
        proof {
            assert(g2.deep_view().len() == g2@.len());
        }
        return g2;
    }
    proof {
        assert(g2.deep_view().len() == g2@.len());
    }
    let p3 = collect_p3(s);
    let p3d = dedup(&p3);
    if p3d.len() > 0 {
        proof {
            assert(p3d.deep_view().len() == p3d@.len());
        }
        return p3d;
    }
    proof {
        assert(p3d.deep_view().len() == p3d@.len());
    }
    let p4 = collect_p4(s);
    dedup(&p4)
}

/// The neighbouring numeric identifiers probed when reference discovery
/// yields nothing: the revision id itself, then its two successors, then
/// its two predecessors, skipping what falls outside the type's range.
pub open spec fn spec_adjacent_refs(id: u32) -> Seq<Seq<char>> {
    let up1: Seq<Seq<char>> = if id + 1 <= u32::MAX {
        seq![dec_str(id + 1)]
    } else {
        Seq::empty()
    };
    let up2: Seq<Seq<char>> = if id + 2 <= u32::MAX {
        seq![dec_str(id + 2)]
    } else {
        Seq::empty()
    };
    let dn1: Seq<Seq<char>> = if id >= 1 {
        seq![dec_str(id - 1)]
    } else {
        Seq::empty()
    };
    let dn2: Seq<Seq<char>> = if id >= 2 {
        seq![dec_str(id - 2)]
    } else {
        Seq::empty()
    };
    seq![dec_str(id as int)] + up1 + up2 + dn1 + dn2
}

/// The candidate references probed around a revision id.
pub fn adjacent_refs(id: u32) -> (r: Vec<String>)
    ensures
        r.deep_view() == spec_adjacent_refs(id),
{
    let mut out: Vec<String> = Vec::new();
    out.push(chars_to_string(&u64_to_chars(id as u64)));
    if id <= u32::MAX - 1 {
        out.push(chars_to_string(&u64_to_chars(id as u64 + 1)));
    }
    if id <= u32::MAX - 2 {
        out.push(chars_to_string(&u64_to_chars(id as u64 + 2)));
    }
    if id >= 1 {
        out.push(chars_to_string(&u64_to_chars(id as u64 - 1)));
    }
    if id >= 2 {
        out.push(chars_to_string(&u64_to_chars(id as u64 - 2)));
    }
    proof {
        assert(out.deep_view() =~~= spec_adjacent_refs(id));
    }
    out
}

/// The revision id named by a review URL: the digits after the first
/// `/D` whose run ends at a query mark, a fragment mark, or the end.
pub open spec fn spec_diff_id_from_url(s: Seq<char>, i: int) -> Option<u32>
    decreases s.len() - i,
{
    if i < 0 {
        None
    } else {
        match spec_find(s, i, "/D"@) {
            None => None,
            Some(a) => {
                let ds = a + 2;
                let de = digits_end(s, ds);
                if de > ds && de <= s.len() && (de == s.len() || s[de] == '?' || s[de] == '#') {
                    let digits = s.subrange(ds, de);
                    if dec_val(digits) <= u32::MAX {
                        Some(dec_val(digits) as u32)
                    } else {
                        None
                    }
                } else if ds > i && ds <= s.len() {
                    spec_diff_id_from_url(s, ds)
                } else {
                    None
                }
            },
        }
    }
}

/// Reads the revision id out of a review URL.
pub fn extract_diff_id_from_url(url: &str) -> (r: Option<u32>)
    ensures
        r == spec_diff_id_from_url(url@, 0),
{
    let s = str_chars(url);
    let pat = str_chars("/D");
    proof {
        reveal_strlit("/D");
    }
    let n = s.len();
    let mut i: usize = 0;
    loop
        invariant
            0 <= i <= n,
            n == s@.len(),
            pat@ == "/D"@,
            pat@.len() == 2,
            s@ == url@,
            spec_diff_id_from_url(url@, 0) == spec_diff_id_from_url(s@, i as int),
        decreases n - i,
    {
        match find_at(&s, i, &pat) {
            None => {
                return None;
            },
            Some(a) => {
                let ds = a + 2;
                let de = digits_scan(&s, ds);
                if de > ds && (de == n || s[de] == '?' || s[de] == '#') {
                    let digits = sub_vec(&s, ds, de);
                    proof {
                        crate::json::lemma_digits_run(s@, ds as int);
                        assert forall|w: int| 0 <= w < digits@.len() implies crate::is_dec_digit(
                            #[trigger] digits@[w],
                        ) by {
                            assert(digits@[w] == s@[ds + w]);
                        }
                    }
                    return parse_digits_u32(&digits);
                }
                i = ds;
            },
        }
    }
}

/// Reads a digit sequence as a 32-bit number, refusing overflow.
fn parse_digits_u32(digits: &Vec<char>) -> (r: Option<u32>)
    requires
        crate::all_digits(digits@),
        digits@.len() >= 1,
    ensures
        r == (if dec_val(digits@) <= u32::MAX {
            Some(dec_val(digits@) as u32)
        } else {
            None::<u32>
        }),
{
    let n = digits.len();
    let mut acc: u32 = 0;
    let mut i: usize = 0;
    while i < n
        invariant
            0 <= i <= n,
            n == digits@.len(),
            crate::all_digits(digits@),
            acc as int == dec_val(digits@.take(i as int)),
        decreases n - i,
    {
        let d: u32 = digits[i] as u32 - '0' as u32;
        proof {
            assert(digits@.take(i + 1).drop_last() =~= digits@.take(i as int));
            assert(digits@.take(i + 1).last() == digits@[i as int]);
        }
        if acc > (u32::MAX - d) / 10 {
            proof {
                assert(dec_val(digits@.take(i + 1)) > u32::MAX);
                if dec_val(digits@) <= u32::MAX {
                    crate::lemma_dec_val_grows(digits@, i + 1);
                }
            }
            return None;
        }
        acc = acc * 10 + d;
        i = i + 1;
    }
    proof {
        assert(digits@.take(i as int) =~= digits@);
    }
    Some(acc)
}


/// Deduplication loses nothing and invents nothing: a capture stands in
/// the deduplicated listing exactly when it was captured at all.
pub proof fn lemma_dedup_contains(xs: Seq<Seq<char>>, x: Seq<char>)
    ensures
        spec_dedup(xs).contains(x) <==> xs.contains(x),
    decreases xs.len(),
{
    if xs.len() > 0 {
        lemma_dedup_contains(xs.drop_last(), x);
        let rest = spec_dedup(xs.drop_last());
        if xs.contains(x) {
            let w = choose|w: int| 0 <= w < xs.len() && xs[w] == x;
            if w < xs.len() - 1 {
                assert(xs.drop_last()[w] == x);
                if !rest.contains(xs.last()) {
                    let v = choose|v: int| 0 <= v < rest.len() && rest[v] == x;
                    assert(rest.push(xs.last())[v] == x);
                }
            } else {
                if rest.contains(xs.last()) {
                } else {
                    assert(rest.push(xs.last()).last() == x);
                }
            }
        }
        if spec_dedup(xs).contains(x) {
            let w = choose|w: int| 0 <= w < spec_dedup(xs).len() && spec_dedup(xs)[w] == x;
            if rest.contains(xs.last()) {
                assert(rest[w] == x);
                assert(xs.drop_last().contains(x));
                let v = choose|v: int| 0 <= v < xs.drop_last().len() && xs.drop_last()[v] == x;
                assert(xs[v] == x);
            } else {
                if w < rest.len() {
                    assert(rest[w] == x);
                    assert(xs.drop_last().contains(x));
                    let v = choose|v: int| 0 <= v < xs.drop_last().len() && xs.drop_last()[v]
                        == x;
                    assert(xs[v] == x);
                } else {
                    assert(x == xs.last());
                    assert(xs[xs.len() - 1] == x);
                }
            }
        }
    }
}

} // verus!
