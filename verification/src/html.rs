//! Textual reading of the HTML fragments the web interface embeds in its
//! responses: text content of a span, table rows, cells selected by class
//! token, and the enclosing-element scan behind the done marker.
use vstd::prelude::*;

verus! {

use crate::text::{matches_at, spec_find, find_at, eq_at, sub_vec, str_chars};

/// One entity reference this reader resolves, with its length.
pub open spec fn entity_at(s: Seq<char>, i: int) -> Option<(char, int)> {
    if matches_at(s, i, "&lt;"@) {
        Some(('<', 4))
    } else if matches_at(s, i, "&gt;"@) {
        Some(('>', 4))
    } else if matches_at(s, i, "&amp;"@) {
        Some(('&', 5))
    } else if matches_at(s, i, "&quot;"@) {
        Some(('"', 6))
    } else if matches_at(s, i, "&#39;"@) {
        Some(('\'', 5))
    } else if matches_at(s, i, "&nbsp;"@) {
        Some(('\u{a0}', 6))
    } else {
        None
    }
}

/// Text content of `s[i..hi)`: tags are dropped, known entity references
/// are resolved, everything else is kept.
pub open spec fn spec_text(s: Seq<char>, i: int, hi: int) -> Seq<char>
    decreases hi - i,
{
    if i < 0 || i >= hi || i >= s.len() {
        Seq::empty()
    } else if s[i] == '<' {
        match spec_find(s, i + 1, seq!['>']) {
            Some(te) => if te + 1 > i && te < hi {
                spec_text(s, te + 1, hi)
            } else {
                Seq::empty()
            },
            None => Seq::empty(),
        }
    } else if s[i] == '&' {
        match entity_at(s, i) {
            Some((c, w)) => if i + w <= hi {
                seq![c] + spec_text(s, i + w, hi)
            } else {
                seq![s[i]] + spec_text(s, i + 1, hi)
            },
            None => seq![s[i]] + spec_text(s, i + 1, hi),
        }
    } else {
        seq![s[i]] + spec_text(s, i + 1, hi)
    }
}

fn entity_here(s: &Vec<char>, i: usize) -> (r: Option<(char, usize)>)
    requires
        i <= s@.len(),
    ensures
        match entity_at(s@, i as int) {
            Some(p) => r matches Some(q) && q.0 == p.0 && q.1 as int == p.1 && 0 < q.1 <= 6,
            None => r is None,
        },
{
    let e1 = str_chars("&lt;");
    let e2 = str_chars("&gt;");
    let e3 = str_chars("&amp;");
    let e4 = str_chars("&quot;");
    let e5 = str_chars("&#39;");
    let e6 = str_chars("&nbsp;");
    proof {
        reveal_strlit("&lt;");
        reveal_strlit("&gt;");
        reveal_strlit("&amp;");
        reveal_strlit("&quot;");
        reveal_strlit("&#39;");
        reveal_strlit("&nbsp;");
    }
    let n = s.len();
    if n - i >= 4 && eq_at(s, i, &e1) {
        Some(('<', 4))
    } else if n - i >= 4 && eq_at(s, i, &e2) {
        Some(('>', 4))
    } else if n - i >= 5 && eq_at(s, i, &e3) {
        Some(('&', 5))
    } else if n - i >= 6 && eq_at(s, i, &e4) {
        Some(('"', 6))
    } else if n - i >= 5 && eq_at(s, i, &e5) {
        Some(('\'', 5))
    } else if n - i >= 6 && eq_at(s, i, &e6) {
        Some(('\u{a0}', 6))
    } else {
        None
    }
}

/// The text content of `s[lo..hi)`.
pub fn text_of_span(s: &Vec<char>, lo: usize, hi: usize) -> (r: Vec<char>)
    requires
        lo <= hi <= s@.len(),
    ensures
        r@ == spec_text(s@, lo as int, hi as int),
{
    let mut out: Vec<char> = Vec::new();
    let mut i: usize = lo;
    let gt = str_chars(">");
    proof {
        reveal_strlit(">");
        assert(gt@ =~= seq!['>']);
    }
    loop
        invariant
            lo <= i <= hi <= s@.len(),
            gt@ == seq!['>'],
            spec_text(s@, lo as int, hi as int) == out@ + spec_text(s@, i as int, hi as int),
        ensures
            out@ == spec_text(s@, lo as int, hi as int),
        decreases hi - i,
    {
        if i >= hi {
            proof {
                assert(out@ =~= out@ + spec_text(s@, i as int, hi as int));
            }
            break ;
        }
        let c = s[i];
        if c == '<' {
            match find_at(s, i + 1, &gt) {
                Some(te) => {
                    if te < hi {
                        i = te + 1;
                    } else {
                        proof {
                            assert(out@ =~= out@ + Seq::<char>::empty());
                        }
                        break ;
                    }
                },
                None => {
                    proof {
                        assert(out@ =~= out@ + Seq::<char>::empty());
                    }
                    break ;
                },
            }
        } else if c == '&' {
            match entity_here(s, i) {
                Some((d, w)) => {
                    if w <= hi - i {
                        out.push(d);
                        proof {
                            assert(out@ + spec_text(s@, i + w, hi as int) =~= out@.drop_last() + (
                            seq![d] + spec_text(s@, i + w, hi as int)));
                        }
                        i = i + w;
                    } else {
                        out.push(c);
                        proof {
                            assert(out@ + spec_text(s@, i + 1, hi as int) =~= out@.drop_last() + (
                            seq![c] + spec_text(s@, i + 1, hi as int)));
                        }
                        i = i + 1;
                    }
                },
                None => {
                    out.push(c);
                    proof {
                        assert(out@ + spec_text(s@, i + 1, hi as int) =~= out@.drop_last() + (
                        seq![c] + spec_text(s@, i + 1, hi as int)));
                    }
                    i = i + 1;
                },
            }
        } else {
            out.push(c);
            proof {
                assert(out@ + spec_text(s@, i + 1, hi as int) =~= out@.drop_last() + (seq![c]
                    + spec_text(s@, i + 1, hi as int)));
            }
            i = i + 1;
        }
    }
    out
}

/// The table rows of `s[i..hi)`: each span runs from its `<tr` to just
/// past the matching `</tr>`.
pub open spec fn spec_rows(s: Seq<char>, i: int, hi: int) -> Seq<(int, int)>
    decreases hi - i,
{
    if i < 0 {
        Seq::empty()
    } else {
        match spec_find(s, i, "<tr"@) {
            None => Seq::empty(),
            Some(a) => if a + 3 > hi {
                Seq::empty()
            } else {
                match spec_find(s, a + 3, "</tr>"@) {
                    None => Seq::empty(),
                    Some(e) => if e + 5 <= hi && e + 5 > i {
                        seq![(a, e + 5)] + spec_rows(s, e + 5, hi)
                    } else {
                        Seq::empty()
                    },
                }
            },
        }
    }
}

/// Executable spans as mathematical spans.
pub open spec fn spans_view(v: Seq<(usize, usize)>) -> Seq<(int, int)> {
    Seq::new(v.len(), |k: int| (v[k].0 as int, v[k].1 as int))
}

/// The table rows of `s[lo..hi)`.
pub fn rows_of(s: &Vec<char>, lo: usize, hi: usize) -> (r: Vec<(usize, usize)>)
    requires
        lo <= hi <= s@.len(),
    ensures
        spans_view(r@) == spec_rows(s@, lo as int, hi as int),
        forall|k: int|
            0 <= k < r@.len() ==> lo <= (#[trigger] r@[k]).0 < r@[k].1 <= hi,
{
    let tr_open = str_chars("<tr");
    let tr_close = str_chars("</tr>");
    proof {
        reveal_strlit("<tr");
        reveal_strlit("</tr>");
    }
    let n = s.len();
    let mut out: Vec<(usize, usize)> = Vec::new();
    let mut i: usize = lo;
    loop
        invariant
            lo <= i <= hi <= s@.len(),
            n == s@.len(),
            tr_open@ == "<tr"@,
            tr_close@ == "</tr>"@,
            tr_open@.len() == 3,
            tr_close@.len() == 5,
            spec_rows(s@, lo as int, hi as int) == spans_view(out@) + spec_rows(
                s@,
                i as int,
                hi as int,
            ),
            forall|k: int|
                0 <= k < out@.len() ==> lo <= (#[trigger] out@[k]).0 < out@[k].1 <= hi,
        ensures
            spans_view(out@) == spec_rows(s@, lo as int, hi as int),
            forall|k: int|
                0 <= k < out@.len() ==> lo <= (#[trigger] out@[k]).0 < out@[k].1 <= hi,
        decreases hi - i,
    {
        let ghost pre = spans_view(out@);
        match find_at(s, i, &tr_open) {
            None => {
                proof {
                    assert(pre =~= pre + spec_rows(s@, i as int, hi as int));
                }
                break ;
            },
            Some(a) => {
                if a + 3 > hi {
                    proof {
                        assert(pre =~= pre + spec_rows(s@, i as int, hi as int));
                    }
                    break ;
                }
                match find_at(s, a + 3, &tr_close) {
                    None => {
                        proof {
                            assert(pre =~= pre + spec_rows(s@, i as int, hi as int));
                        }
                        break ;
                    },
                    Some(e) => {
                        if e + 5 <= hi {
                            out.push((a, e + 5));
                            proof {
                                assert(spans_view(out@) =~= pre + seq![(a as int, (e + 5) as int)]);
                                assert(pre + (seq![(a as int, (e + 5) as int)] + spec_rows(
                                    s@,
                                    e + 5,
                                    hi as int,
                                )) =~= spans_view(out@) + spec_rows(s@, e + 5, hi as int));
                            }
                            i = e + 5;
                        } else {
                            proof {
                                assert(pre =~= pre + spec_rows(s@, i as int, hi as int));
                            }
                            break ;
                        }
                    },
                }
            },
        }
    }
    out
}

/// The class attribute list `cls` holds `tok` as a whole token.
pub open spec fn has_token(cls: Seq<char>, tok: Seq<char>) -> bool {
    exists|i: int|
        #![trigger matches_at(cls, i, tok)]
        matches_at(cls, i, tok) && (i == 0 || cls[i - 1] == ' ') && (i + tok.len() == cls.len()
            || cls[i + tok.len()] == ' ')
}

/// Whether `cls[lo..]` holds `tok` as a whole token, scanning occurrence
/// by occurrence.
pub fn has_token_exec(cls: &Vec<char>, tok: &Vec<char>) -> (r: bool)
    requires
        tok@.len() >= 1,
    ensures
        r == has_token(cls@, tok@),
{
    let n = cls.len();
    let mut from: usize = 0;
    loop
        invariant
            0 <= from <= n,
            n == cls@.len(),
            tok@.len() >= 1,
            forall|k: int|
                0 <= k < from ==> !(matches_at(cls@, k, tok@) && (k == 0 || cls@[k - 1] == ' ') && (
                k + tok@.len() == cls@.len() || cls@[k + tok@.len()] == ' ')),
        decreases n - from,
    {
        match find_at(cls, from, tok) {
            None => {
                proof {
                    crate::text::lemma_find_none(cls@, from as int, tok@);
                }
                return false;
            },
            Some(i) => {
                proof {
                    crate::text::lemma_find_found(cls@, from as int, tok@);
                }
                let left_ok = i == 0 || cls[i - 1] == ' ';
                let right_ok = i + tok.len() == n || cls[i + tok.len()] == ' ';
                if left_ok && right_ok {
                    return true;
                }
                from = i + 1;
            },
        }
    }
}

/// The span of the value of the `class` attribute of the tag written over
/// `s[a..te)`, if one is there.
pub open spec fn spec_class_span(s: Seq<char>, a: int, te: int) -> Option<(int, int)> {
    match spec_find(s, a, "class=\""@) {
        Some(j) => if j < te {
            match spec_find(s, j + 7, seq!['"']) {
                Some(q) => if q <= te {
                    Some((j + 7, q))
                } else {
                    None
                },
                None => None,
            }
        } else {
            None
        },
        None => None,
    }
}

/// The value of the `class` attribute of the tag written over `s[a..te)`.
pub fn class_of_tag(s: &Vec<char>, a: usize, te: usize) -> (r: Option<Vec<char>>)
    requires
        a <= s@.len(),
        te <= s@.len(),
    ensures
        match spec_class_span(s@, a as int, te as int) {
            Some(p) => r matches Some(v) && v@ == s@.subrange(p.0, p.1),
            None => r is None,
        },
{
    let cpat = str_chars("class=\"");
    let quot = str_chars("\"");
    proof {
        reveal_strlit("class=\"");
        reveal_strlit("\"");
        assert(cpat@.len() == 7);
        assert(quot@ =~= seq!['"']);
    }
    let n = s.len();
    match find_at(s, a, &cpat) {
        Some(j) => {
            if j < te {
                match find_at(s, j + 7, &quot) {
                    Some(q) => {
                        if q <= te {
                            Some(sub_vec(s, j + 7, q))
                        } else {
                            None
                        }
                    },
                    None => None,
                }
            } else {
                None
            }
        },
        None => None,
    }
}

/// Content span of the first `<td` cell in `s[lo..hi)` whose class list
/// holds token `ta` (and `tb` too when `need_b` is set). The content runs
/// from just past the tag to the next `</td>`, clamped to `hi`.
pub open spec fn spec_first_td(
    s: Seq<char>,
    lo: int,
    hi: int,
    ta: Seq<char>,
    tb: Seq<char>,
    need_b: bool,
) -> Option<(int, int)>
    decreases hi - lo,
{
    if lo < 0 || hi > s.len() {
        None
    } else {
        match spec_find(s, lo, "<td"@) {
            None => None,
            Some(a) => if a + 3 > hi {
                None
            } else {
                match spec_find(s, a + 3, seq!['>']) {
                    None => None,
                    Some(te) => if te >= hi {
                        None
                    } else {
                        let ok = match spec_class_span(s, a, te) {
                            Some(cs) => has_token(s.subrange(cs.0, cs.1), ta) && (!need_b
                                || has_token(s.subrange(cs.0, cs.1), tb)),
                            None => false,
                        };
                        if ok {
                            let end = match spec_find(s, te + 1, "</td>"@) {
                                Some(e) => if e <= hi {
                                    e
                                } else {
                                    hi
                                },
                                None => hi,
                            };
                            Some((te + 1, end))
                        } else if a + 3 > lo {
                            spec_first_td(s, a + 3, hi, ta, tb, need_b)
                        } else {
                            None
                        }
                    },
                }
            },
        }
    }
}

/// Finds the first matching `<td` cell; mirrors `spec_first_td`.
pub fn first_td(
    s: &Vec<char>,
    lo: usize,
    hi: usize,
    ta: &Vec<char>,
    tb: &Vec<char>,
    need_b: bool,
) -> (r: Option<(usize, usize)>)
    requires
        lo <= hi <= s@.len(),
        ta@.len() >= 1,
        tb@.len() >= 1,
    ensures
        match spec_first_td(s@, lo as int, hi as int, ta@, tb@, need_b) {
            Some(p) => r matches Some(q) && q.0 as int == p.0 && q.1 as int == p.1 && q.0 <= q.1
                <= hi,
            None => r is None,
        },
{
    let td_open = str_chars("<td");
    let td_close = str_chars("</td>");
    let gt = str_chars(">");
    proof {
        reveal_strlit("<td");
        reveal_strlit("</td>");
        reveal_strlit(">");
        assert(gt@ =~= seq!['>']);
    }
    let n = s.len();
    let mut cur: usize = lo;
    loop
        invariant
            lo <= cur,
            cur <= hi <= s@.len(),
            n == s@.len(),
            td_open@ == "<td"@,
            td_open@.len() == 3,
            td_close@ == "</td>"@,
            td_close@.len() == 5,
            gt@ == seq!['>'],
            ta@.len() >= 1,
            tb@.len() >= 1,
            spec_first_td(s@, lo as int, hi as int, ta@, tb@, need_b) == spec_first_td(
                s@,
                cur as int,
                hi as int,
                ta@,
                tb@,
                need_b,
            ),
        decreases hi - cur,
    {
        match find_at(s, cur, &td_open) {
            None => {
                return None;
            },
            Some(a) => {
                if a + 3 > hi {
                    return None;
                }
                match find_at(s, a + 3, &gt) {
                    None => {
                        return None;
                    },
                    Some(te) => {
                        if te >= hi {
                            return None;
                        }
                        let ok = match class_of_tag(s, a, te) {
                            Some(cls) => {
                                if need_b {
                                    has_token_exec(&cls, ta) && has_token_exec(&cls, tb)
                                } else {
                                    has_token_exec(&cls, ta)
                                }
                            },
                            None => false,
                        };
                        if ok {
                            let end = match find_at(s, te + 1, &td_close) {
                                Some(e) => {
                                    if e <= hi {
                                        e
                                    } else {
                                        hi
                                    }
                                },
                                None => hi,
                            };
                            return Some((te + 1, end));
                        }
                        cur = a + 3;
                    },
                }
            },
        }
    }
}

/// Content span after the first tag in `s[lo..hi)` of any name whose
/// class list holds `tok`; the content runs to the next `<`.
pub open spec fn spec_first_classed(s: Seq<char>, lo: int, hi: int, tok: Seq<char>) -> Option<
    (int, int),
>
    decreases hi - lo,
{
    if lo < 0 || hi > s.len() {
        None
    } else {
        match spec_find(s, lo, "class=\""@) {
            None => None,
            Some(j) => if j + 7 > hi {
                None
            } else {
                match spec_find(s, j + 7, seq!['"']) {
                    None => None,
                    Some(q) => if q >= hi {
                        None
                    } else if has_token(s.subrange(j + 7, q), tok) {
                        match spec_find(s, q, seq!['>']) {
                            None => None,
                            Some(te) => if te >= hi {
                                None
                            } else {
                                let end = match spec_find(s, te + 1, seq!['<']) {
                                    Some(e) => if e <= hi {
                                        e
                                    } else {
                                        hi
                                    },
                                    None => hi,
                                };
                                Some((te + 1, end))
                            },
                        }
                    } else if j + 7 > lo {
                        spec_first_classed(s, j + 7, hi, tok)
                    } else {
                        None
                    },
                }
            },
        }
    }
}

/// Finds the first tag with class token `tok`; mirrors
/// `spec_first_classed`.
pub fn first_classed(s: &Vec<char>, lo: usize, hi: usize, tok: &Vec<char>) -> (r: Option<
    (usize, usize),
>)
    requires
        lo <= hi <= s@.len(),
        tok@.len() >= 1,
    ensures
        match spec_first_classed(s@, lo as int, hi as int, tok@) {
            Some(p) => r matches Some(q) && q.0 as int == p.0 && q.1 as int == p.1 && q.0 <= q.1
                <= hi,
            None => r is None,
        },
{
    let cpat = str_chars("class=\"");
    let quot = str_chars("\"");
    let gt = str_chars(">");
    let lt = str_chars("<");
    proof {
        reveal_strlit("class=\"");
        reveal_strlit("\"");
        reveal_strlit(">");
        reveal_strlit("<");
        assert(quot@ =~= seq!['"']);
        assert(gt@ =~= seq!['>']);
        assert(lt@ =~= seq!['<']);
        assert(cpat@.len() == 7);
    }
    let n = s.len();
    let mut cur: usize = lo;
    loop
        invariant
            lo <= cur,
            cur <= hi <= s@.len(),
            n == s@.len(),
            cpat@ == "class=\""@,
            cpat@.len() == 7,
            quot@ == seq!['"'],
            gt@ == seq!['>'],
            lt@ == seq!['<'],
            tok@.len() >= 1,
            spec_first_classed(s@, lo as int, hi as int, tok@) == spec_first_classed(
                s@,
                cur as int,
                hi as int,
                tok@,
            ),
        decreases hi - cur,
    {
        match find_at(s, cur, &cpat) {
            None => {
                return None;
            },
            Some(j) => {
                if j + 7 > hi {
                    return None;
                }
                match find_at(s, j + 7, &quot) {
                    None => {
                        return None;
                    },
                    Some(q) => {
                        if q >= hi {
                            return None;
                        }
                        let cls = sub_vec(s, j + 7, q);
                        if has_token_exec(&cls, tok) {
                            match find_at(s, q, &gt) {
                                None => {
                                    return None;
                                },
                                Some(te) => {
                                    if te >= hi {
                                        return None;
                                    }
                                    let end = match find_at(s, te + 1, &lt) {
                                        Some(e) => {
                                            if e <= hi {
                                                e
                                            } else {
                                                hi
                                            }
                                        },
                                        None => hi,
                                    };
                                    return Some((te + 1, end));
                                },
                            }
                        }
                        cur = j + 7;
                    },
                }
            },
        }
    }
}

/// An ASCII letter.
pub open spec fn is_alpha(c: char) -> bool {
    ('a' <= c && c <= 'z') || ('A' <= c && c <= 'Z')
}

/// The tag opened at `a` has exactly the name `name`.
pub open spec fn tag_name_is(s: Seq<char>, a: int, name: Seq<char>) -> bool {
    matches_at(s, a + 1, name) && (a + 1 + name.len() == s.len() || !is_alpha(
        s[a + 1 + name.len()],
    ))
}

/// A tag that never takes a closing counterpart.
pub open spec fn is_void_tag(s: Seq<char>, a: int) -> bool {
    tag_name_is(s, a, "br"@) || tag_name_is(s, a, "hr"@) || tag_name_is(s, a, "img"@)
        || tag_name_is(s, a, "input"@) || tag_name_is(s, a, "meta"@) || tag_name_is(s, a, "link"@)
}

/// Scans `s` from `i` up to `pos`, keeping a stack of the still-open
/// elements: whether one of them carries the done marker class. `true`
/// when an element enclosing position `pos` is marked done.
pub open spec fn spec_done_above(s: Seq<char>, i: int, pos: int, stack: Seq<bool>) -> bool
    decreases pos - i,
{
    if i < 0 {
        stack.contains(true)
    } else {
        match spec_find(s, i, seq!['<']) {
            None => stack.contains(true),
            Some(a) => if a >= pos {
                stack.contains(true)
            } else if a + 1 < s.len() && s[a + 1] == '/' {
                match spec_find(s, a + 1, seq!['>']) {
                    None => stack.contains(true),
                    Some(te) => if te >= pos || te + 1 <= i {
                        stack.contains(true)
                    } else {
                        spec_done_above(
                            s,
                            te + 1,
                            pos,
                            if stack.len() > 0 {
                                stack.drop_last()
                            } else {
                                stack
                            },
                        )
                    },
                }
            } else {
                match spec_find(s, a + 1, seq!['>']) {
                    None => stack.contains(true),
                    Some(te) => if te >= pos || te + 1 <= i {
                        stack.contains(true)
                    } else if (te > a + 1 && s[te - 1] == '/') || is_void_tag(s, a) {
                        spec_done_above(s, te + 1, pos, stack)
                    } else {
                        let has = match spec_class_span(s, a, te) {
                            Some(cs) => has_token(s.subrange(cs.0, cs.1), "inline-is-done"@),
                            None => false,
                        };
                        spec_done_above(s, te + 1, pos, stack.push(has))
                    },
                }
            },
        }
    }
}

fn is_void_tag_exec(s: &Vec<char>, a: usize) -> (r: bool)
    requires
        a < s@.len(),
    ensures
        r == is_void_tag(s@, a as int),
{
    let p1 = str_chars("br");
    let p2 = str_chars("hr");
    let p3 = str_chars("img");
    let p4 = str_chars("input");
    let p5 = str_chars("meta");
    let p6 = str_chars("link");
    proof {
        reveal_strlit("br");
        reveal_strlit("hr");
        reveal_strlit("img");
        reveal_strlit("input");
        reveal_strlit("meta");
        reveal_strlit("link");
    }
    tag_name_check(s, a, &p1) || tag_name_check(s, a, &p2) || tag_name_check(s, a, &p3)
        || tag_name_check(s, a, &p4) || tag_name_check(s, a, &p5) || tag_name_check(s, a, &p6)
}

fn tag_name_check(s: &Vec<char>, a: usize, name: &Vec<char>) -> (r: bool)
    requires
        a < s@.len(),
        name@.len() >= 1,
    ensures
        r == tag_name_is(s@, a as int, name@),
{
    let n = s.len();
    if name.len() > n - 1 || a + 1 > n - name.len() {
        proof {
            assert(!matches_at(s@, a + 1, name@));
        }
        return false;
    }
    if !eq_at(s, a + 1, name) {
        return false;
    }
    if a + 1 + name.len() == n {
        true
    } else {
        let c = s[a + 1 + name.len()];
        !(('a' <= c && c <= 'z') || ('A' <= c && c <= 'Z'))
    }
}

/// Whether an element enclosing position `pos` carries the done marker
/// class; mirrors `spec_done_above` started from the beginning.
pub fn done_above(s: &Vec<char>, pos: usize) -> (r: bool)
    requires
        pos <= s@.len(),
    ensures
        r == spec_done_above(s@, 0, pos as int, Seq::<bool>::empty()),
{
    let lt = str_chars("<");
    let gt = str_chars(">");
    proof {
        reveal_strlit("<");
        reveal_strlit(">");
        assert(lt@ =~= seq!['<']);
        assert(gt@ =~= seq!['>']);
    }
    let n = s.len();
    let mut stack: Vec<bool> = Vec::new();
    let mut i: usize = 0;
    loop
        invariant
            0 <= i <= n,
            n == s@.len(),
            pos <= n,
            lt@ == seq!['<'],
            gt@ == seq!['>'],
            spec_done_above(s@, 0, pos as int, Seq::<bool>::empty()) == spec_done_above(
                s@,
                i as int,
                pos as int,
                stack@,
            ),
        ensures
            spec_done_above(s@, 0, pos as int, Seq::<bool>::empty()) == stack@.contains(true),
        decreases pos - i,
    {
        match find_at(s, i, &lt) {
            None => {
                break ;
            },
            Some(a) => {
                if a >= pos {
                    break ;
                }
                if a + 1 < n && s[a + 1] == '/' {
                    match find_at(s, a + 1, &gt) {
                        None => {
                            break ;
                        },
                        Some(te) => {
                            if te >= pos {
                                break ;
                            }
                            let ghost old_stack = stack@;
                            let _popped = stack.pop();
                            proof {
                                if old_stack.len() > 0 {
                                    assert(stack@ =~= old_stack.drop_last());
                                } else {
                                    assert(stack@ =~= old_stack);
                                }
                            }
                            i = te + 1;
                        },
                    }
                } else {
                    match find_at(s, a + 1, &gt) {
                        None => {
                            break ;
                        },
                        Some(te) => {
                            if te >= pos {
                                break ;
                            }
                            if (te > a + 1 && s[te - 1] == '/') || is_void_tag_exec(s, a) {
                                i = te + 1;
                            } else {
                                let tokd = str_chars("inline-is-done");
                                proof {
                                    reveal_strlit("inline-is-done");
                                }
                                let has = match class_of_tag(s, a, te) {
                                    Some(cls) => has_token_exec(&cls, &tokd),
                                    None => false,
                                };
                                stack.push(has);
                                i = te + 1;
                            }
                        },
                    }
                }
            },
        }
    }
    let mut found = false;
    let mut k: usize = 0;
    while k < stack.len()
        invariant
            0 <= k <= stack@.len(),
            found == stack@.take(k as int).contains(true),
        decreases stack@.len() - k,
    {
        proof {
            assert(stack@.take(k + 1).drop_last() =~= stack@.take(k as int));
            if stack@[k as int] == true || stack@.take(k as int).contains(true) {
                assert(stack@.take(k + 1)[if stack@[k as int] {
                    k as int
                } else {
                    choose|w: int| 0 <= w < k && stack@.take(k as int)[w] == true
                }] == true);
            }
        }
        if stack[k] {
            found = true;
        }
        k = k + 1;
    }
    proof {
        assert(stack@.take(stack@.len() as int) =~= stack@);
    }
    found
}

} // verus!
