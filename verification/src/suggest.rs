//! The layered suggestion parser: given a fetched changeset response
//! body, an ordered chain of extraction strategies recovers a diff-style
//! suggestion text, or reports that none is recoverable.
use vstd::prelude::*;

verus! {

use crate::text::{
    matches_at,
    spec_find,
    contains_seq,
    spec_trim,
    strip_prefix_reps,
    spec_join,
    find_at,
    contains_at,
    trim_vec,
    strip_prefix_all,
    sub_vec,
    str_chars,
    chars_to_string,
    join_lines,
};
use crate::json::{
    spec_parse_json,
    spec_find_sugg,
    spec_payload_changeset,
    parse_json,
    find_sugg,
    payload_changeset,
};
use crate::html::{
    spec_text,
    spec_rows,
    spec_first_td,
    spec_first_classed,
    spec_done_above,
    spans_view,
    text_of_span,
    rows_of,
    first_td,
    first_classed,
    done_above,
};

/// The response body without the anti-hijacking prefix the server puts
/// before JSON.
pub open spec fn spec_strip_hijack(s: Seq<char>) -> Seq<char> {
    if matches_at(s, 0, "for (;;);"@) {
        s.subrange(9, s.len() as int)
    } else {
        s
    }
}

/// Removes the anti-hijacking prefix when it is there.
pub fn strip_hijack(s: &Vec<char>) -> (r: Vec<char>)
    ensures
        r@ == spec_strip_hijack(s@),
{
    let p = str_chars("for (;;);");
    proof {
        reveal_strlit("for (;;);");
    }
    let n = s.len();
    if n >= 9 && crate::text::eq_at(s, 0, &p) {
        sub_vec(s, 9, n)
    } else {
        proof {
            if matches_at(s@, 0, "for (;;);"@) {
            }
        }
        sub_vec(s, 0, n)
    }
}

/// A recovered diff body wrapped for the rendered output: a heading and a
/// fenced diff block.
pub open spec fn spec_wrap(body: Seq<char>) -> Seq<char> {
    "**Suggested changes:**\n\n```diff\n"@ + body + "\n```"@
}

/// Wraps a recovered diff body as the rendered output carries it.
pub fn wrap_suggestion(body: &Vec<char>) -> (r: Vec<char>)
    ensures
        r@ == spec_wrap(body@),
{
    let mut out = str_chars("**Suggested changes:**\n\n```diff\n");
    let mut mid = sub_vec(body, 0, body.len());
    let mut tail = str_chars("\n```");
    out.append(&mut mid);
    out.append(&mut tail);
    out
}

/// Resolves the textual escapes a rendered suggestion may carry: newline,
/// tab, angle brackets, slash, quote and backslash; anything else is kept.
pub open spec fn spec_unescape(t: Seq<char>, i: int) -> Seq<char>
    decreases t.len() - i,
{
    if i < 0 || i >= t.len() {
        Seq::empty()
    } else if t[i] == '\\' && i + 1 < t.len() {
        if t[i + 1] == 'n' {
            seq!['\n'] + spec_unescape(t, i + 2)
        } else if t[i + 1] == 't' {
            seq!['\t'] + spec_unescape(t, i + 2)
        } else if matches_at(t, i + 1, seq!['u', '0', '0', '3', 'e']) {
            seq!['>'] + spec_unescape(t, i + 6)
        } else if matches_at(t, i + 1, seq!['u', '0', '0', '3', 'c']) {
            seq!['<'] + spec_unescape(t, i + 6)
        } else if t[i + 1] == '/' {
            seq!['/'] + spec_unescape(t, i + 2)
        } else if t[i + 1] == '"' {
            seq!['"'] + spec_unescape(t, i + 2)
        } else if t[i + 1] == '\\' {
            seq!['\\'] + spec_unescape(t, i + 2)
        } else {
            seq![t[i]] + spec_unescape(t, i + 1)
        }
    } else {
        seq![t[i]] + spec_unescape(t, i + 1)
    }
}

/// Resolves escapes; mirrors `spec_unescape`.
pub fn unescape(t: &Vec<char>) -> (r: Vec<char>)
    ensures
        r@ == spec_unescape(t@, 0),
{
    let pe = vec!['u', '0', '0', '3', 'e'];
    let pc = vec!['u', '0', '0', '3', 'c'];
    proof {
        assert(pe@ =~= seq!['u', '0', '0', '3', 'e']);
        assert(pc@ =~= seq!['u', '0', '0', '3', 'c']);
    }
    let n = t.len();
    let mut out: Vec<char> = Vec::new();
    let mut i: usize = 0;
    while i < n
        invariant
            0 <= i <= n,
            n == t@.len(),
            pe@ == seq!['u', '0', '0', '3', 'e'],
            pc@ == seq!['u', '0', '0', '3', 'c'],
            spec_unescape(t@, 0) == out@ + spec_unescape(t@, i as int),
        decreases n - i,
    {
        let ghost pre = out@;
        let c = t[i];
        if c == '\\' && i + 1 < n {
            let d = t[i + 1];
            if d == 'n' {
                out.push('\n');
                i = i + 2;
            } else if d == 't' {
                out.push('\t');
                i = i + 2;
            } else if n - i >= 6 && crate::text::eq_at(t, i + 1, &pe) {
                out.push('>');
                i = i + 6;
            } else if n - i >= 6 && crate::text::eq_at(t, i + 1, &pc) {
                out.push('<');
                i = i + 6;
            } else if d == '/' {
                out.push('/');
                i = i + 2;
            } else if d == '"' {
                out.push('"');
                i = i + 2;
            } else if d == '\\' {
                out.push('\\');
                i = i + 2;
            } else {
                out.push(c);
                i = i + 1;
            }
        } else {
            out.push(c);
            i = i + 1;
        }
        proof {
            assert(out@ =~= pre.push(out@.last()));
            assert(out@ + spec_unescape(t@, i as int) =~= pre + (seq![out@.last()]
                + spec_unescape(t@, i as int)));
        }
    }
    proof {
        assert(out@ =~= out@ + spec_unescape(t@, i as int));
    }
    out
}

/// End of the text a quoted suggestion field captures: units are either a
/// plain character or a backslash with the character after it, up to the
/// closing quote.
pub open spec fn spec_capture_end(t: Seq<char>, i: int) -> Option<int>
    decreases t.len() - i,
{
    if i < 0 || i >= t.len() {
        None
    } else if t[i] == '"' {
        Some(i)
    } else if t[i] == '\\' {
        if i + 2 <= t.len() {
            spec_capture_end(t, i + 2)
        } else {
            None
        }
    } else {
        spec_capture_end(t, i + 1)
    }
}

fn capture_end(t: &Vec<char>, i: usize) -> (r: Option<usize>)
    requires
        i <= t@.len(),
    ensures
        match spec_capture_end(t@, i as int) {
            Some(e) => r matches Some(q) && q as int == e && i <= q <= t@.len(),
            None => r is None,
        },
{
    let n = t.len();
    let mut j: usize = i;
    loop
        invariant
            i <= j <= n,
            n == t@.len(),
            spec_capture_end(t@, i as int) == spec_capture_end(t@, j as int),
        decreases n - j,
    {
        if j >= n {
            return None;
        }
        let c = t[j];
        if c == '"' {
            return Some(j);
        }
        if c == '\\' {
            if n - j >= 2 {
                j = j + 2;
            } else {
                return None;
            }
        } else {
            j = j + 1;
        }
    }
}

/// The suggestion text the raw-text fallback recovers: the first quoted
/// `suggestionText` field, with escapes resolved and blanks trimmed.
pub open spec fn spec_raw_sugg(body: Seq<char>) -> Option<Seq<char>> {
    match spec_find(body, 0, "\"suggestionText\":\""@) {
        None => None,
        Some(j) => {
            let start = j + 18;
            if !(0 <= start <= body.len()) {
                None
            } else {
                match spec_capture_end(body, start) {
                    None => None,
                    Some(e) => {
                        let un = spec_unescape(body.subrange(start, e), 0);
                        if spec_trim(un).len() > 0 {
                            Some(spec_trim(un))
                        } else {
                            None
                        }
                    },
                }
            }
        },
    }
}

fn raw_sugg(body: &Vec<char>) -> (r: Option<Vec<char>>)
    ensures
        match spec_raw_sugg(body@) {
            Some(t) => r matches Some(v) && v@ == t,
            None => r is None,
        },
{
    let marker = str_chars("\"suggestionText\":\"");
    proof {
        reveal_strlit("\"suggestionText\":\"");
        assert(marker@.len() == 18);
    }
    let n = body.len();
    match find_at(body, 0, &marker) {
        None => None,
        Some(j) => {
            let start = j + 18;
            match capture_end(body, start) {
                None => None,
                Some(e) => {
                    let captured = sub_vec(body, start, e);
                    let un = unescape(&captured);
                    let trimmed = trim_vec(&un);
                    if trimmed.len() > 0 {
                        Some(trimmed)
                    } else {
                        None
                    }
                },
            }
        },
    }
}

/// Second strategy: the parsed JSON tree is searched for a usable
/// `suggestionText` member; only when the body cannot be parsed at all is
/// the raw text scanned for the same field. The result is the trimmed
/// suggestion body.
pub open spec fn spec_strategy2(body: Seq<char>) -> Option<Seq<char>> {
    let clean = spec_strip_hijack(body);
    match spec_parse_json(clean) {
        Some(v) => match spec_find_sugg(v) {
            Some(t) => if spec_trim(t).len() > 0 {
                Some(spec_trim(t))
            } else {
                None
            },
            None => None,
        },
        None => spec_raw_sugg(body),
    }
}

/// Second strategy; mirrors `spec_strategy2`.
pub fn strategy2(body: &Vec<char>) -> (r: Option<Vec<char>>)
    ensures
        match spec_strategy2(body@) {
            Some(t) => r matches Some(v) && v@ == t,
            None => r is None,
        },
{
    let clean = strip_hijack(body);
    match parse_json(&clean) {
        Some(v) => match find_sugg(&v) {
            Some(t) => {
                let trimmed = trim_vec(t);
                if trimmed.len() > 0 {
                    Some(trimmed)
                } else {
                    None
                }
            },
            None => None,
        },
        None => raw_sugg(body),
    }
}

/// The trimmed text of one cell, kept when it says more than a bare diff
/// sign; the diff sign prefix it may repeat is removed.
pub open spec fn spec_cell_line(doc: Seq<char>, cell: (int, int), sign: char) -> Option<Seq<char>> {
    if !(0 <= cell.0 <= cell.1 <= doc.len()) {
        None
    } else {
        let text = spec_trim(spec_text(doc, cell.0, cell.1));
        if text.len() > 0 && text != seq![sign] {
            let j = strip_prefix_reps(text, 0, seq![sign, ' ']);
            let cleaned = if 0 <= j <= text.len() {
                spec_trim(text.subrange(j, text.len() as int))
            } else {
                spec_trim(text)
            };
            if cleaned.len() > 0 {
                Some(seq![sign, ' '] + cleaned)
            } else {
                None
            }
        } else {
            None
        }
    }
}

fn cell_line(doc: &Vec<char>, cell: (usize, usize), sign: char) -> (r: Option<Vec<char>>)
    requires
        cell.0 <= cell.1 <= doc@.len(),
    ensures
        match spec_cell_line(doc@, (cell.0 as int, cell.1 as int), sign) {
            Some(t) => r matches Some(v) && v@ == t,
            None => r is None,
        },
{
    let raw = text_of_span(doc, cell.0, cell.1);
    let text = trim_vec(&raw);
    if text.len() == 0 {
        return None;
    }
    if text.len() == 1 && text[0] == sign {
        proof {
            assert(text@ =~= seq![sign]);
        }
        return None;
    }
    proof {
        if text@ == seq![sign] {
            assert(text@.len() == 1 && text@[0] == sign);
        }
    }
    let mut p: Vec<char> = Vec::new();
    p.push(sign);
    p.push(' ');
    proof {
        assert(p@ =~= seq![sign, ' ']);
    }
    let stripped = strip_prefix_all(&text, &p);
    let cleaned = trim_vec(&stripped);
    if cleaned.len() > 0 {
        let mut out: Vec<char> = Vec::new();
        out.push(sign);
        out.push(' ');
        let mut tail = cleaned;
        let ghost gtail = tail@;
        out.append(&mut tail);
        proof {
            assert(out@ =~= seq![sign, ' '] + gtail);
        }
        Some(out)
    } else {
        None
    }
}

/// One cleaned diff line from a whole row's text: trimmed, the repeated
/// sign prefix removed, and dropped when it is blank or structural noise.
pub open spec fn spec_line1(s: Seq<char>, a: int, b: int, sign: char) -> Option<Seq<char>> {
    let text = spec_trim(spec_text(s, a, b));
    let j = strip_prefix_reps(text, 0, seq![sign, ' ']);
    let cleaned = if 0 <= j <= text.len() {
        spec_trim(text.subrange(j, text.len() as int))
    } else {
        spec_trim(text)
    };
    if cleaned.len() > 0 && !contains_seq(cleaned, "break;"@) && !contains_seq(
        cleaned,
        seq!['}'],
    ) {
        Some(seq![sign, ' '] + cleaned)
    } else {
        None
    }
}

fn line1(s: &Vec<char>, a: usize, b: usize, sign: char) -> (r: Option<Vec<char>>)
    requires
        a <= b <= s@.len(),
    ensures
        match spec_line1(s@, a as int, b as int, sign) {
            Some(t) => r matches Some(v) && v@ == t,
            None => r is None,
        },
{
    let raw = text_of_span(s, a, b);
    let text = trim_vec(&raw);
    let mut p: Vec<char> = Vec::new();
    p.push(sign);
    p.push(' ');
    proof {
        assert(p@ =~= seq![sign, ' ']);
    }
    let stripped = strip_prefix_all(&text, &p);
    let cleaned = trim_vec(&stripped);
    let brk = str_chars("break;");
    let brace = str_chars("}");
    proof {
        reveal_strlit("break;");
        reveal_strlit("}");
        assert(brace@ =~= seq!['}']);
    }
    if cleaned.len() > 0 && !contains_at(&cleaned, &brk) && !contains_at(&cleaned, &brace) {
        let mut out: Vec<char> = Vec::new();
        out.push(sign);
        out.push(' ');
        let mut tail = cleaned;
        let ghost gtail = tail@;
        out.append(&mut tail);
        proof {
            assert(out@ =~= seq![sign, ' '] + gtail);
        }
        Some(out)
    } else {
        None
    }
}

/// The diff lines one table row contributes under the first strategy: a
/// removed line when the row is classed `left old`, an added line when it
/// is classed `right new`.
pub open spec fn spec_row_lines1(s: Seq<char>, a: int, b: int) -> Seq<Seq<char>> {
    if !(0 <= a <= b <= s.len()) {
        Seq::empty()
    } else {
        let row = s.subrange(a, b);
        let old_part = if contains_seq(row, "left old"@) {
            match spec_line1(s, a, b, '-') {
                Some(l) => seq![l],
                None => Seq::<Seq<char>>::empty(),
            }
        } else {
            Seq::<Seq<char>>::empty()
        };
        let new_part = if contains_seq(row, "right new"@) {
            match spec_line1(s, a, b, '+') {
                Some(l) => seq![l],
                None => Seq::<Seq<char>>::empty(),
            }
        } else {
            Seq::<Seq<char>>::empty()
        };
        old_part + new_part
    }
}

/// The diff lines of all rows from index `k` on, first strategy.
pub open spec fn spec_lines1(s: Seq<char>, rows: Seq<(int, int)>, k: int) -> Seq<Seq<char>>
    decreases rows.len() - k,
{
    if k < 0 || k >= rows.len() {
        Seq::empty()
    } else {
        spec_row_lines1(s, rows[k].0, rows[k].1) + spec_lines1(s, rows, k + 1)
    }
}

/// First strategy: inside the first suggestion view, the first table's
/// rows are classified by class substring and cleaned into diff lines.
pub open spec fn spec_strategy1(h: Seq<char>) -> Option<Seq<char>> {
    match spec_find(h, 0, "inline-suggestion-view"@) {
        None => None,
        Some(p0) => match (spec_find(h, p0, "<table"@), spec_find(h, p0, "</table>"@)) {
            (Some(ts), Some(tee)) => if ts <= tee + 8 <= h.len() {
                let lines = spec_lines1(h, spec_rows(h, ts, tee + 8), 0);
                if lines.len() > 0 {
                    Some(spec_join(lines, '\n'))
                } else {
                    None
                }
            } else {
                None
            },
            _ => None,
        },
    }
}

/// First strategy; mirrors `spec_strategy1`.
pub fn strategy1(h: &Vec<char>) -> (r: Option<Vec<char>>)
    ensures
        match spec_strategy1(h@) {
            Some(t) => r matches Some(v) && v@ == t,
            None => r is None,
        },
{
    let pview = str_chars("inline-suggestion-view");
    let topen = str_chars("<table");
    let tclose = str_chars("</table>");
    let pleft = str_chars("left old");
    let pright = str_chars("right new");
    proof {
        reveal_strlit("inline-suggestion-view");
        reveal_strlit("<table");
        reveal_strlit("</table>");
        reveal_strlit("left old");
        reveal_strlit("right new");
        assert(tclose@.len() == 8);
    }
    let n = h.len();
    let p0 = match find_at(h, 0, &pview) {
        Some(p) => p,
        None => {
            return None;
        },
    };
    let ts = match find_at(h, p0, &topen) {
        Some(p) => p,
        None => {
            return None;
        },
    };
    let tee = match find_at(h, p0, &tclose) {
        Some(p) => p,
        None => {
            return None;
        },
    };
    if !(ts <= tee + 8) {
        return None;
    }
    let rows = rows_of(h, ts, tee + 8);
    let ghost sv = spans_view(rows@);
    let mut lines: Vec<Vec<char>> = Vec::new();
    let mut k: usize = 0;
    while k < rows.len()
        invariant
            0 <= k <= rows@.len(),
            sv == spans_view(rows@),
            sv.len() == rows@.len(),
            n == h@.len(),
            pleft@ == "left old"@,
            pright@ == "right new"@,
            pleft@.len() >= 1,
            pright@.len() >= 1,
            forall|w: int| 0 <= w < rows@.len() ==> (#[trigger] rows@[w]).0 <= rows@[w].1 <= n,
            forall|w: int|
                0 <= w < rows@.len() ==> sv[w] == ((#[trigger] rows@[w]).0 as int, rows@[w].1 as int),
            spec_lines1(h@, sv, 0) == lines.deep_view() + spec_lines1(h@, sv, k as int),
        decreases rows@.len() - k,
    {
        let ghost pre = lines.deep_view();
        let a = rows[k].0;
        let b = rows[k].1;
        let row = sub_vec(h, a, b);
        let ghost gold = (if contains_seq(h@.subrange(a as int, b as int), "left old"@) {
            match spec_line1(h@, a as int, b as int, '-') {
                Some(l) => seq![l],
                None => Seq::<Seq<char>>::empty(),
            }
        } else {
            Seq::<Seq<char>>::empty()
        });
        let mut added: Vec<Vec<char>> = Vec::new();
        proof {
            assert(added.deep_view() =~~= Seq::<Seq<char>>::empty());
        }
        if contains_at(&row, &pleft) {
            match line1(h, a, b, '-') {
                Some(l) => {
                    let ghost gl = l@;
                    added.push(l);
                    proof {
                        assert(added.deep_view() =~~= seq![gl]);
                    }
                },
                None => {},
            }
        }
        proof {
            assert(added.deep_view() =~~= gold);
        }
        if contains_at(&row, &pright) {
            match line1(h, a, b, '+') {
                Some(l) => {
                    let ghost gl = l@;
                    let ghost gdv = added.deep_view();
                    added.push(l);
                    proof {
                        assert(added.deep_view() =~~= gdv.push(gl));
                    }
                },
                None => {},
            }
        }
        let ghost gadded = added.deep_view();
        proof {
            assert(gadded =~~= spec_row_lines1(h@, a as int, b as int));
        }
        let mut added2 = added;
        lines.append(&mut added2);
        proof {
            assert(lines.deep_view() =~~= pre + gadded);
            assert(pre + (gadded + spec_lines1(h@, sv, k + 1)) =~~= lines.deep_view()
                + spec_lines1(h@, sv, k + 1));
        }
        k = k + 1;
    }
    if lines.len() > 0 {
        proof {
            assert(lines.deep_view() =~~= lines.deep_view() + spec_lines1(h@, sv, k as int));
            assert(lines.deep_view().len() == lines@.len());
        }
        Some(join_lines(&lines, '\n'))
    } else {
        proof {
            assert(lines.deep_view().len() == lines@.len());
        }
        None
    }
}

/// The diff lines one row contributes under the third strategy: the text
/// of its first `old`-classed cell and of its first `new`-classed cell.
pub open spec fn spec_row_lines3(h: Seq<char>, a: int, b: int) -> Seq<Seq<char>> {
    if !(0 <= a <= b <= h.len()) {
        Seq::empty()
    } else {
        let old_part = match spec_first_td(h, a, b, "old"@, "old"@, false) {
            Some(cell) => {
                let text = spec_trim(spec_text(h, cell.0, cell.1));
                if text.len() > 0 {
                    seq![seq!['-', ' '] + text]
                } else {
                    Seq::<Seq<char>>::empty()
                }
            },
            None => Seq::<Seq<char>>::empty(),
        };
        let new_part = match spec_first_td(h, a, b, "new"@, "new"@, false) {
            Some(cell) => {
                let text = spec_trim(spec_text(h, cell.0, cell.1));
                if text.len() > 0 {
                    seq![seq!['+', ' '] + text]
                } else {
                    Seq::<Seq<char>>::empty()
                }
            },
            None => Seq::<Seq<char>>::empty(),
        };
        old_part + new_part
    }
}

/// The diff lines of all rows from index `k` on, third strategy.
pub open spec fn spec_lines3(h: Seq<char>, rows: Seq<(int, int)>, k: int) -> Seq<Seq<char>>
    decreases rows.len() - k,
{
    if k < 0 || k >= rows.len() {
        Seq::empty()
    } else {
        spec_row_lines3(h, rows[k].0, rows[k].1) + spec_lines3(h, rows, k + 1)
    }
}

/// Third strategy: the embedded changeset HTML is read row by row, taking
/// removed lines from `old` cells and added lines from `new` cells.
pub open spec fn spec_strategy3(body: Seq<char>) -> Option<Seq<char>> {
    let clean = spec_strip_hijack(body);
    match spec_parse_json(clean) {
        None => None,
        Some(v) => match spec_payload_changeset(v) {
            None => None,
            Some(h) => {
                let lines = spec_lines3(h, spec_rows(h, 0, h.len() as int), 0);
                if lines.len() > 0 {
                    Some(spec_join(lines, '\n'))
                } else {
                    None
                }
            },
        },
    }
}

/// Third strategy; mirrors `spec_strategy3`.
pub fn strategy3(body: &Vec<char>) -> (r: Option<Vec<char>>)
    ensures
        match spec_strategy3(body@) {
            Some(t) => r matches Some(v) && v@ == t,
            None => r is None,
        },
{
    let clean = strip_hijack(body);
    let parsed = match parse_json(&clean) {
        Some(v) => v,
        None => {
            return None;
        },
    };
    let h = match payload_changeset(&parsed) {
        Some(h) => h,
        None => {
            return None;
        },
    };
    let told = str_chars("old");
    let tnew = str_chars("new");
    proof {
        reveal_strlit("old");
        reveal_strlit("new");
    }
    let n = h.len();
    let rows = rows_of(h, 0, n);
    let ghost sv = spans_view(rows@);
    let mut lines: Vec<Vec<char>> = Vec::new();
    let mut k: usize = 0;
    while k < rows.len()
        invariant
            0 <= k <= rows@.len(),
            sv == spans_view(rows@),
            sv.len() == rows@.len(),
            n == h@.len(),
            told@ == "old"@,
            tnew@ == "new"@,
            told@.len() >= 1,
            tnew@.len() >= 1,
            forall|w: int| 0 <= w < rows@.len() ==> (#[trigger] rows@[w]).0 <= rows@[w].1 <= n,
            forall|w: int|
                0 <= w < rows@.len() ==> sv[w] == ((#[trigger] rows@[w]).0 as int, rows@[w].1 as int),
            spec_lines3(h@, sv, 0) == lines.deep_view() + spec_lines3(h@, sv, k as int),
        decreases rows@.len() - k,
    {
        let ghost pre = lines.deep_view();
        let a = rows[k].0;
        let b = rows[k].1;
        let ghost gold = (match spec_first_td(h@, a as int, b as int, "old"@, "old"@, false) {
            Some(cell) => {
                let text = spec_trim(spec_text(h@, cell.0, cell.1));
                if text.len() > 0 {
                    seq![seq!['-', ' '] + text]
                } else {
                    Seq::<Seq<char>>::empty()
                }
            },
            None => Seq::<Seq<char>>::empty(),
        });
        let mut added: Vec<Vec<char>> = Vec::new();
        proof {
            assert(added.deep_view() =~~= Seq::<Seq<char>>::empty());
        }
        match first_td(h, a, b, &told, &told, false) {
            Some(cell) => {
                let raw = text_of_span(h, cell.0, cell.1);
                let text = trim_vec(&raw);
                if text.len() > 0 {
                    let mut out: Vec<char> = Vec::new();
                    out.push('-');
                    out.push(' ');
                    let mut tail = text;
                    let ghost gtail = tail@;
                    out.append(&mut tail);
                    proof {
                        assert(out@ =~= seq!['-', ' '] + gtail);
                    }
                    let ghost gl = out@;
                    added.push(out);
                    proof {
                        assert(added.deep_view() =~~= seq![gl]);
                    }
                }
            },
            None => {},
        }
        proof {
            assert(added.deep_view() =~~= gold);
        }
        match first_td(h, a, b, &tnew, &tnew, false) {
            Some(cell) => {
                let raw = text_of_span(h, cell.0, cell.1);
                let text = trim_vec(&raw);
                if text.len() > 0 {
                    let mut out: Vec<char> = Vec::new();
                    out.push('+');
                    out.push(' ');
                    let mut tail = text;
                    let ghost gtail = tail@;
                    out.append(&mut tail);
                    proof {
                        assert(out@ =~= seq!['+', ' '] + gtail);
                    }
                    let ghost gl = out@;
                    let ghost gdv = added.deep_view();
                    added.push(out);
                    proof {
                        assert(added.deep_view() =~~= gdv.push(gl));
                    }
                }
            },
            None => {},
        }
        let ghost gadded = added.deep_view();
        proof {
            assert(gadded =~~= spec_row_lines3(h@, a as int, b as int));
        }
        let mut added2 = added;
        lines.append(&mut added2);
        proof {
            assert(lines.deep_view() =~~= pre + gadded);
            assert(pre + (gadded + spec_lines3(h@, sv, k + 1)) =~~= lines.deep_view()
                + spec_lines3(h@, sv, k + 1));
        }
        k = k + 1;
    }
    if lines.len() > 0 {
        proof {
            assert(lines.deep_view() =~~= lines.deep_view() + spec_lines3(h@, sv, k as int));
            assert(lines.deep_view().len() == lines@.len());
        }
        Some(join_lines(&lines, '\n'))
    } else {
        proof {
            assert(lines.deep_view().len() == lines@.len());
        }
        None
    }
}

/// The selector a side of the fourth strategy settles on over a table
/// span: the doubly-classed cell pattern, then the singly-classed one,
/// then the classed-element pattern; `0` when none matches.
pub open spec fn spec_sel(
    h: Seq<char>,
    lo: int,
    hi: int,
    t1: Seq<char>,
    t2: Seq<char>,
    tc: Seq<char>,
) -> int {
    if spec_first_td(h, lo, hi, t1, t2, true) is Some {
        1
    } else if spec_first_td(h, lo, hi, t2, t2, false) is Some {
        2
    } else if spec_first_classed(h, lo, hi, tc) is Some {
        3
    } else {
        0
    }
}

/// The cell the settled selector picks inside one row span.
pub open spec fn spec_cell4(
    h: Seq<char>,
    a: int,
    b: int,
    sel: int,
    t1: Seq<char>,
    t2: Seq<char>,
    tc: Seq<char>,
) -> Option<(int, int)> {
    if sel == 1 {
        spec_first_td(h, a, b, t1, t2, true)
    } else if sel == 2 {
        spec_first_td(h, a, b, t2, t2, false)
    } else if sel == 3 {
        spec_first_classed(h, a, b, tc)
    } else {
        None
    }
}

/// The diff lines one row contributes under the fourth strategy.
pub open spec fn spec_row_lines4(h: Seq<char>, a: int, b: int, so: int, sn: int) -> Seq<Seq<char>> {
    if !(0 <= a <= b <= h.len()) {
        Seq::empty()
    } else {
        let old_part = match spec_cell4(h, a, b, so, "left"@, "old"@, "diff-old"@) {
            Some(cell) => match spec_cell_line(h, cell, '-') {
                Some(l) => seq![l],
                None => Seq::<Seq<char>>::empty(),
            },
            None => Seq::<Seq<char>>::empty(),
        };
        let new_part = match spec_cell4(h, a, b, sn, "right"@, "new"@, "diff-new"@) {
            Some(cell) => match spec_cell_line(h, cell, '+') {
                Some(l) => seq![l],
                None => Seq::<Seq<char>>::empty(),
            },
            None => Seq::<Seq<char>>::empty(),
        };
        old_part + new_part
    }
}

/// The diff lines of all rows from index `k` on, fourth strategy.
pub open spec fn spec_lines4(
    h: Seq<char>,
    rows: Seq<(int, int)>,
    k: int,
    so: int,
    sn: int,
) -> Seq<Seq<char>>
    decreases rows.len() - k,
{
    if k < 0 || k >= rows.len() {
        Seq::empty()
    } else {
        spec_row_lines4(h, rows[k].0, rows[k].1, so, sn) + spec_lines4(h, rows, k + 1, so, sn)
    }
}

/// The extraction attempted at one suggestion-view occurrence: its first
/// table, read with the settled selectors.
pub open spec fn spec_sugg_at(h: Seq<char>, p: int) -> Option<Seq<char>> {
    match spec_find(h, p, "<table"@) {
        None => None,
        Some(ts) => match spec_find(h, ts, "</table>"@) {
            None => None,
            Some(tee) => if ts <= tee + 8 <= h.len() {
                let hi = tee + 8;
                let so = spec_sel(h, ts, hi, "left"@, "old"@, "diff-old"@);
                let sn = spec_sel(h, ts, hi, "right"@, "new"@, "diff-new"@);
                let lines = spec_lines4(h, spec_rows(h, ts, hi), 0, so, sn);
                if lines.len() > 0 {
                    Some(spec_join(lines, '\n'))
                } else {
                    None
                }
            } else {
                None
            },
        },
    }
}

/// Fourth strategy: each suggestion-view occurrence in turn, skipping the
/// ones an enclosing element marks done unless the caller asked for them,
/// until one yields diff lines.
pub open spec fn spec_strategy4(h: Seq<char>, from: int, include_done: bool) -> Option<Seq<char>>
    decreases h.len() - from,
{
    if from < 0 {
        None
    } else {
        match spec_find(h, from, "inline-suggestion-view"@) {
            None => None,
            Some(p) => {
                let skip = spec_done_above(h, 0, p, Seq::<bool>::empty()) && !include_done;
                let ext = if skip {
                    None
                } else {
                    spec_sugg_at(h, p)
                };
                if ext is Some {
                    ext
                } else if p + 1 > from && p + 1 <= h.len() {
                    spec_strategy4(h, p + 1, include_done)
                } else {
                    None
                }
            },
        }
    }
}

#[verifier::rlimit(60)]
fn sugg_at(h: &Vec<char>, p: usize) -> (r: Option<Vec<char>>)
    requires
        p <= h@.len(),
    ensures
        match spec_sugg_at(h@, p as int) {
            Some(t) => r matches Some(v) && v@ == t,
            None => r is None,
        },
{
    let topen = str_chars("<table");
    let tclose = str_chars("</table>");
    let tleft = str_chars("left");
    let told = str_chars("old");
    let tdiffold = str_chars("diff-old");
    let tright = str_chars("right");
    let tnew = str_chars("new");
    let tdiffnew = str_chars("diff-new");
    proof {
        reveal_strlit("<table");
        reveal_strlit("</table>");
        reveal_strlit("left");
        reveal_strlit("old");
        reveal_strlit("diff-old");
        reveal_strlit("right");
        reveal_strlit("new");
        reveal_strlit("diff-new");
        assert(tclose@.len() == 8);
    }
    let n = h.len();
    let ts = match find_at(h, p, &topen) {
        Some(x) => x,
        None => {
            return None;
        },
    };
    let tee = match find_at(h, ts, &tclose) {
        Some(x) => x,
        None => {
            return None;
        },
    };
    if !(ts <= tee + 8) {
        return None;
    }
    let hi = tee + 8;
    let so: usize = if first_td(h, ts, hi, &tleft, &told, true).is_some() {
        1
    } else if first_td(h, ts, hi, &told, &told, false).is_some() {
        2
    } else if first_classed(h, ts, hi, &tdiffold).is_some() {
        3
    } else {
        0
    };
    let sn: usize = if first_td(h, ts, hi, &tright, &tnew, true).is_some() {
        1
    } else if first_td(h, ts, hi, &tnew, &tnew, false).is_some() {
        2
    } else if first_classed(h, ts, hi, &tdiffnew).is_some() {
        3
    } else {
        0
    };
    proof {
        assert(so as int == spec_sel(h@, ts as int, hi as int, "left"@, "old"@, "diff-old"@));
        assert(sn as int == spec_sel(h@, ts as int, hi as int, "right"@, "new"@, "diff-new"@));
    }
    let rows = rows_of(h, ts, hi);
    let ghost sv = spans_view(rows@);
    let mut lines: Vec<Vec<char>> = Vec::new();
    let mut k: usize = 0;
    while k < rows.len()
        invariant
            0 <= k <= rows@.len(),
            sv == spans_view(rows@),
            sv.len() == rows@.len(),
            n == h@.len(),
            so as int == spec_sel(h@, ts as int, hi as int, "left"@, "old"@, "diff-old"@),
            sn as int == spec_sel(h@, ts as int, hi as int, "right"@, "new"@, "diff-new"@),
            tleft@ == "left"@ && told@ == "old"@ && tdiffold@ == "diff-old"@,
            tright@ == "right"@ && tnew@ == "new"@ && tdiffnew@ == "diff-new"@,
            tleft@.len() >= 1 && told@.len() >= 1 && tdiffold@.len() >= 1,
            tright@.len() >= 1 && tnew@.len() >= 1 && tdiffnew@.len() >= 1,
            forall|w: int| 0 <= w < rows@.len() ==> (#[trigger] rows@[w]).0 <= rows@[w].1 <= n,
            forall|w: int|
                0 <= w < rows@.len() ==> sv[w] == ((#[trigger] rows@[w]).0 as int, rows@[w].1 as int),
            spec_lines4(h@, sv, 0, so as int, sn as int) == lines.deep_view() + spec_lines4(
                h@,
                sv,
                k as int,
                so as int,
                sn as int,
            ),
        decreases rows@.len() - k,
    {
        let ghost pre = lines.deep_view();
        let a = rows[k].0;
        let b = rows[k].1;
        let ghost gold = (match spec_cell4(
            h@,
            a as int,
            b as int,
            so as int,
            "left"@,
            "old"@,
            "diff-old"@,
        ) {
            Some(cell) => match spec_cell_line(h@, cell, '-') {
                Some(l) => seq![l],
                None => Seq::<Seq<char>>::empty(),
            },
            None => Seq::<Seq<char>>::empty(),
        });
        let mut added: Vec<Vec<char>> = Vec::new();
        proof {
            assert(added.deep_view() =~~= Seq::<Seq<char>>::empty());
        }
        let old_cell: Option<(usize, usize)> = if so == 1 {
            first_td(h, a, b, &tleft, &told, true)
        } else if so == 2 {
            first_td(h, a, b, &told, &told, false)
        } else if so == 3 {
            first_classed(h, a, b, &tdiffold)
        } else {
            None
        };
        match old_cell {
            Some(cell) => {
                match cell_line(h, cell, '-') {
                    Some(l) => {
                        let ghost gl = l@;
                        added.push(l);
                        proof {
                            assert(added.deep_view() =~~= seq![gl]);
                        }
                    },
                    None => {},
                }
            },
            None => {},
        }
        proof {
            assert(added.deep_view() =~~= gold);
        }
        let new_cell: Option<(usize, usize)> = if sn == 1 {
            first_td(h, a, b, &tright, &tnew, true)
        } else if sn == 2 {
            first_td(h, a, b, &tnew, &tnew, false)
        } else if sn == 3 {
            first_classed(h, a, b, &tdiffnew)
        } else {
            None
        };
        match new_cell {
            Some(cell) => {
                match cell_line(h, cell, '+') {
                    Some(l) => {
                        let ghost gl = l@;
                        let ghost gdv = added.deep_view();
                        added.push(l);
                        proof {
                            assert(added.deep_view() =~~= gdv.push(gl));
                        }
                    },
                    None => {},
                }
            },
            None => {},
        }
        let ghost gadded = added.deep_view();
        proof {
            assert(gadded =~~= spec_row_lines4(h@, a as int, b as int, so as int, sn as int));
        }
        let mut added2 = added;
        lines.append(&mut added2);
        proof {
            assert(lines.deep_view() =~~= pre + gadded);
            assert(pre + (gadded + spec_lines4(h@, sv, k + 1, so as int, sn as int))
                =~~= lines.deep_view() + spec_lines4(h@, sv, k + 1, so as int, sn as int));
        }
        k = k + 1;
    }
    if lines.len() > 0 {
        proof {
            assert(lines.deep_view() =~~= lines.deep_view() + spec_lines4(
                h@,
                sv,
                k as int,
                so as int,
                sn as int,
            ));
            assert(lines.deep_view().len() == lines@.len());
        }
        Some(join_lines(&lines, '\n'))
    } else {
        proof {
            assert(lines.deep_view().len() == lines@.len());
        }
        None
    }
}

/// Fourth strategy; mirrors `spec_strategy4` started at the beginning.
pub fn strategy4(h: &Vec<char>, include_done: bool) -> (r: Option<Vec<char>>)
    ensures
        match spec_strategy4(h@, 0, include_done) {
            Some(t) => r matches Some(v) && v@ == t,
            None => r is None,
        },
{
    let pview = str_chars("inline-suggestion-view");
    proof {
        reveal_strlit("inline-suggestion-view");
    }
    let n = h.len();
    let mut from: usize = 0;
    loop
        invariant
            0 <= from <= n,
            n == h@.len(),
            pview@ == "inline-suggestion-view"@,
            pview@.len() >= 1,
            spec_strategy4(h@, 0, include_done) == spec_strategy4(h@, from as int, include_done),
        decreases n - from,
    {
        match find_at(h, from, &pview) {
            None => {
                return None;
            },
            Some(p) => {
                let skip = done_above(h, p) && !include_done;
                let ext: Option<Vec<char>> = if skip {
                    None
                } else {
                    sugg_at(h, p)
                };
                match ext {
                    Some(v) => {
                        return Some(v);
                    },
                    None => {
                        from = p + 1;
                    },
                }
            },
        }
    }
}

/// What the suggestion parser returns for a candidate body: the first
/// strategy that recovers diff content, wrapped for rendered output.
/// Absence means no suggestion text was recoverable.
pub open spec fn spec_parse_suggestions(body: Seq<char>, include_done: bool) -> Option<Seq<char>> {
    let s1 = if contains_seq(body, "inline-suggestion-view"@) {
        let clean = spec_strip_hijack(body);
        match spec_parse_json(clean) {
            Some(v) => match spec_payload_changeset(v) {
                Some(h) => spec_strategy1(h),
                None => None,
            },
            None => None,
        }
    } else {
        None
    };
    if s1 is Some {
        Some(spec_wrap(s1->Some_0))
    } else {
        let s2 = spec_strategy2(body);
        if s2 is Some {
            Some(spec_wrap(s2->Some_0))
        } else {
            let s3 = spec_strategy3(body);
            if s3 is Some {
                Some(spec_wrap(s3->Some_0))
            } else {
                let clean = spec_strip_hijack(body);
                let s4 = match spec_parse_json(clean) {
                    Some(v) => match spec_payload_changeset(v) {
                        Some(h) => spec_strategy4(h, 0, include_done),
                        None => None,
                    },
                    None => spec_strategy4(clean, 0, include_done),
                };
                match s4 {
                    Some(t) => Some(spec_wrap(t)),
                    None => None,
                }
            }
        }
    }
}

/// Recovers a formatted code-suggestion from a fetched changeset response
/// body, trying the strategy chain in order; the line number and file
/// path describe the comment under resolution and do not narrow the
/// search. Returns the wrapped diff block, or nothing when no strategy
/// recovers content.
pub fn parse_suggestions(
    body: &str,
    _line_number: u32,
    _file_path: &str,
    include_done: bool,
) -> (r: Option<String>)
    ensures
        match spec_parse_suggestions(body@, include_done) {
            Some(t) => r matches Some(out) && out@ == t,
            None => r is None,
        },
{
    let bv = str_chars(body);
    match parse_suggestions_chars(&bv, include_done) {
        Some(v) => Some(chars_to_string(&v)),
        None => None,
    }
}

/// The strategy chain over a body already held as characters.
pub fn parse_suggestions_chars(bv: &Vec<char>, include_done: bool) -> (r: Option<Vec<char>>)
    ensures
        match spec_parse_suggestions(bv@, include_done) {
            Some(t) => r matches Some(out) && out@ == t,
            None => r is None,
        },
{
    let pview = str_chars("inline-suggestion-view");
    proof {
        reveal_strlit("inline-suggestion-view");
    }
    let s1: Option<Vec<char>> = if contains_at(bv, &pview) {
        let clean = strip_hijack(bv);
        match parse_json(&clean) {
            Some(v) => match payload_changeset(&v) {
                Some(h) => strategy1(h),
                None => None,
            },
            None => None,
        }
    } else {
        None
    };
    match s1 {
        Some(t) => {
            return Some(wrap_suggestion(&t));
        },
        None => {},
    }
    match strategy2(bv) {
        Some(t) => {
            return Some(wrap_suggestion(&t));
        },
        None => {},
    }
    match strategy3(bv) {
        Some(t) => {
            return Some(wrap_suggestion(&t));
        },
        None => {},
    }
    let clean = strip_hijack(bv);
    let s4: Option<Vec<char>> = match parse_json(&clean) {
        Some(v) => match payload_changeset(&v) {
            Some(h) => strategy4(h, include_done),
            None => None,
        },
        None => strategy4(&clean, include_done),
    };
    match s4 {
        Some(t) => Some(wrap_suggestion(&t)),
        None => None,
    }
}


/// Parsing is deterministic: two results obtained for the same candidate
/// body and the same done flag are identical, whatever else the process
/// has done in between.
pub proof fn lemma_parse_deterministic(
    r1: Option<Seq<char>>,
    r2: Option<Seq<char>>,
    body: Seq<char>,
    include_done: bool,
)
    requires
        r1 == spec_parse_suggestions(body, include_done),
        r2 == spec_parse_suggestions(body, include_done),
    ensures
        r1 == r2,
{
}

/// When every suggestion view in the document sits under an element
/// marked done, the final strategy suppresses them all unless done items
/// were asked for.
pub proof fn lemma_done_suppressed(h: Seq<char>, from: int)
    requires
        forall|p: int|
            matches_at(h, p, "inline-suggestion-view"@) ==> spec_done_above(
                h,
                0,
                p,
                Seq::<bool>::empty(),
            ),
    ensures
        spec_strategy4(h, from, false) is None,
    decreases h.len() - from,
{
    if from >= 0 {
        match spec_find(h, from, "inline-suggestion-view"@) {
            None => {},
            Some(p) => {
                crate::text::lemma_find_found(h, from, "inline-suggestion-view"@);
                assert(matches_at(h, p, "inline-suggestion-view"@));
                if p + 1 > from && p + 1 <= h.len() {
                    lemma_done_suppressed(h, p + 1);
                }
            },
        }
    }
}

/// When done items are asked for, the done marker suppresses nothing: the
/// first suggestion view that yields content is returned even if an
/// enclosing element marks it done.
pub proof fn lemma_done_included(h: Seq<char>, from: int)
    requires
        0 <= from,
        spec_find(h, from, "inline-suggestion-view"@) is Some,
        spec_sugg_at(h, spec_find(h, from, "inline-suggestion-view"@)->Some_0) is Some,
    ensures
        spec_strategy4(h, from, true) == spec_sugg_at(
            h,
            spec_find(h, from, "inline-suggestion-view"@)->Some_0,
        ),
{
}

} // verus!
