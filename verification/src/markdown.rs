//! Rendering of classified comments as Markdown: general comments in
//! time order, inline comments grouped by file with files in order of
//! their earliest comment, each entry under its own heading.
use vstd::prelude::*;

verus! {

use crate::assemble::{Comment, InlineComment, CommentsData};
use crate::text::{spec_join, str_chars, chars_to_string, dec_str, u64_to_chars, chars_eq};

/// Strict lexicographic order on character sequences.
pub open spec fn chars_lt(a: Seq<char>, b: Seq<char>) -> bool
    decreases a.len(),
{
    if b.len() == 0 {
        false
    } else if a.len() == 0 {
        true
    } else if a[0] != b[0] {
        a[0] < b[0]
    } else {
        chars_lt(a.drop_first(), b.drop_first())
    }
}

/// Compares two character vectors lexicographically.
pub fn chars_lt_exec(a: &Vec<char>, b: &Vec<char>) -> (r: bool)
    ensures
        r == chars_lt(a@, b@),
    decreases a@.len(),
{
    let na = a.len();
    let nb = b.len();
    let mut k: usize = 0;
    proof {
        assert(a@.skip(0) =~= a@);
        assert(b@.skip(0) =~= b@);
    }
    loop
        invariant
            0 <= k <= na,
            k <= nb,
            na == a@.len(),
            nb == b@.len(),
            chars_lt(a@, b@) == chars_lt(a@.skip(k as int), b@.skip(k as int)),
            forall|w: int| 0 <= w < k ==> a@[w] == b@[w],
        decreases na - k,
    {
        proof {
            if k < na && k < nb {
                assert(a@.skip(k as int).drop_first() =~= a@.skip(k + 1));
                assert(b@.skip(k as int).drop_first() =~= b@.skip(k + 1));
            }
        }
        if k >= nb {
            proof {
                assert(b@.skip(k as int).len() == 0);
            }
            return false;
        }
        if k >= na {
            proof {
                assert(a@.skip(k as int).len() == 0);
                assert(b@.skip(k as int).len() > 0);
            }
            return true;
        }
        let ca = a[k];
        let cb = b[k];
        if ca != cb {
            return ca < cb;
        }
        k = k + 1;
    }
}

/// The rendering order on inline comments: by time, then file path,
/// then line.
pub open spec fn inl_lt(a: InlineComment, b: InlineComment) -> bool {
    a.date_timestamp < b.date_timestamp || (a.date_timestamp == b.date_timestamp && (chars_lt(
        a.file_path@,
        b.file_path@,
    ) || (a.file_path@ == b.file_path@ && a.line_number < b.line_number)))
}

/// Stable insertion into a time-sorted run: the new element stays after
/// every element not after it.
pub open spec fn spec_insert_gen(s: Seq<Comment>, c: Comment) -> Seq<Comment>
    decreases s.len(),
{
    if s.len() == 0 {
        seq![c]
    } else if c.date_timestamp < s.last().date_timestamp {
        spec_insert_gen(s.drop_last(), c).push(s.last())
    } else {
        s.push(c)
    }
}

/// Stable sort of general comments by time.
pub open spec fn spec_sort_gen(s: Seq<Comment>) -> Seq<Comment>
    decreases s.len(),
{
    if s.len() == 0 {
        Seq::empty()
    } else {
        spec_insert_gen(spec_sort_gen(s.drop_last()), s.last())
    }
}

/// Stable insertion into a sorted run of inline comments.
pub open spec fn spec_insert_inl(s: Seq<InlineComment>, c: InlineComment) -> Seq<InlineComment>
    decreases s.len(),
{
    if s.len() == 0 {
        seq![c]
    } else if inl_lt(c, s.last()) {
        spec_insert_inl(s.drop_last(), c).push(s.last())
    } else {
        s.push(c)
    }
}

/// Stable sort of inline comments by time, file and line.
pub open spec fn spec_sort_inl(s: Seq<InlineComment>) -> Seq<InlineComment>
    decreases s.len(),
{
    if s.len() == 0 {
        Seq::empty()
    } else {
        spec_insert_inl(spec_sort_inl(s.drop_last()), s.last())
    }
}

fn insert_gen(v: Vec<Comment>, c: Comment) -> (r: Vec<Comment>)
    ensures
        r@ == spec_insert_gen(v@, c),
    decreases v@.len(),
{
    let mut v = v;
    if v.len() == 0 {
        v.push(c);
        proof {
            assert(v@ =~= seq![c]);
        }
        v
    } else if c.date_timestamp < v[v.len() - 1].date_timestamp {
        let last = match v.pop() {
            Some(x) => x,
            None => {
                proof {
                    assert(false);
                }
                v.push(c);
                return v;
            },
        };
        let mut r = insert_gen(v, c);
        r.push(last);
        r
    } else {
        v.push(c);
        v
    }
}

/// Sorts general comments by time, keeping the order of equals.
pub fn sort_gen(v: Vec<Comment>) -> (r: Vec<Comment>)
    ensures
        r@ == spec_sort_gen(v@),
    decreases v@.len(),
{
    let mut v = v;
    if v.len() == 0 {
        v
    } else {
        let last = match v.pop() {
            Some(x) => x,
            None => {
                proof {
                    assert(false);
                }
                return v;
            },
        };
        let sorted = sort_gen(v);
        insert_gen(sorted, last)
    }
}

fn insert_inl(v: Vec<InlineComment>, c: InlineComment) -> (r: Vec<InlineComment>)
    ensures
        r@ == spec_insert_inl(v@, c),
    decreases v@.len(),
{
    let mut v = v;
    if v.len() == 0 {
        v.push(c);
        proof {
            assert(v@ =~= seq![c]);
        }
        v
    } else {
        let less = {
            let lastref = &v[v.len() - 1];
            if c.date_timestamp < lastref.date_timestamp {
                true
            } else if c.date_timestamp == lastref.date_timestamp {
                let ca = str_chars(c.file_path.as_str());
                let cb = str_chars(lastref.file_path.as_str());
                if chars_lt_exec(&ca, &cb) {
                    true
                } else if chars_eq(&ca, &cb) {
                    c.line_number < lastref.line_number
                } else {
                    false
                }
            } else {
                false
            }
        };
        proof {
            assert(less == inl_lt(c, v@.last()));
        }
        if less {
            let last = match v.pop() {
                Some(x) => x,
                None => {
                    proof {
                        assert(false);
                    }
                    v.push(c);
                    return v;
                },
            };
            let mut r = insert_inl(v, c);
            r.push(last);
            r
        } else {
            v.push(c);
            v
        }
    }
}

/// Sorts inline comments by time, file and line, keeping the order of
/// equals.
pub fn sort_inl(v: Vec<InlineComment>) -> (r: Vec<InlineComment>)
    ensures
        r@ == spec_sort_inl(v@),
    decreases v@.len(),
{
    let mut v = v;
    if v.len() == 0 {
        v
    } else {
        let last = match v.pop() {
            Some(x) => x,
            None => {
                proof {
                    assert(false);
                }
                return v;
            },
        };
        let sorted = sort_inl(v);
        insert_inl(sorted, last)
    }
}

/// The file paths of a sorted run, in order of first appearance.
pub open spec fn spec_file_order(s: Seq<InlineComment>) -> Seq<Seq<char>>
    decreases s.len(),
{
    if s.len() == 0 {
        Seq::empty()
    } else {
        let prior = spec_file_order(s.drop_last());
        if prior.contains(s.last().file_path@) {
            prior
        } else {
            prior.push(s.last().file_path@)
        }
    }
}

/// Lists the file paths in order of first appearance.
pub fn file_order(v: &Vec<InlineComment>) -> (r: Vec<String>)
    ensures
        r.deep_view() == spec_file_order(v@),
{
    let n = v.len();
    let mut out: Vec<String> = Vec::new();
    let mut k: usize = 0;
    proof {
        assert(out.deep_view() =~~= Seq::<Seq<char>>::empty());
        assert(v@.take(0) =~= Seq::<InlineComment>::empty());
    }
    while k < n
        invariant
            0 <= k <= n,
            n == v@.len(),
            out.deep_view() == spec_file_order(v@.take(k as int)),
        decreases n - k,
    {
        proof {
            assert(v@.take(k + 1).drop_last() =~= v@.take(k as int));
            assert(v@.take(k + 1).last() == v@[k as int]);
        }
        let pv = str_chars(v[k].file_path.as_str());
        let mut seen = false;
        let mut w: usize = 0;
        while w < out.len()
            invariant
                0 <= w <= out@.len(),
                0 <= k < n,
                n == v@.len(),
                pv@ == v@[k as int].file_path@,
                seen == out.deep_view().take(w as int).contains(pv@),
            decreases out@.len() - w,
        {
            proof {
                assert(out.deep_view().take(w + 1).drop_last() =~= out.deep_view().take(w as int));
                assert(out.deep_view().take(w + 1).last() == out.deep_view()[w as int]);
                if out.deep_view()[w as int] == pv@ || out.deep_view().take(w as int).contains(
                    pv@,
                ) {
                    assert(out.deep_view().take(w + 1).contains(pv@)) by {
                        if out.deep_view()[w as int] == pv@ {
                            assert(out.deep_view().take(w + 1)[w as int] == pv@);
                        } else {
                            let x = choose|x: int|
                                0 <= x < w && out.deep_view().take(w as int)[x] == pv@;
                            assert(out.deep_view().take(w + 1)[x] == pv@);
                        }
                    }
                }
            }
            let ov = str_chars(out[w].as_str());
            if chars_eq(&ov, &pv) {
                seen = true;
            }
            w = w + 1;
        }
        proof {
            assert(out.deep_view().take(out@.len() as int) =~= out.deep_view());
        }
        if !seen {
            let ghost pre = out.deep_view();
            out.push(chars_to_string(&pv));
            proof {
                assert(out.deep_view() =~~= pre.push(pv@));
            }
        }
        k = k + 1;
    }
    proof {
        assert(v@.take(n as int) =~= v@);
    }
    out
}

/// The heading line of one rendered general comment.
pub open spec fn spec_gen_heading(c: Comment) -> Seq<char> {
    "### Comment by "@ + c.author@ + " ("@ + c.date@ + ")"@
}

/// The lines one general comment renders to.
pub open spec fn spec_gen_entry(c: Comment) -> Seq<Seq<char>> {
    seq![
        spec_gen_heading(c),
        Seq::<char>::empty(),
        c.content@,
        Seq::<char>::empty(),
        "---"@,
        Seq::<char>::empty(),
    ]
}

/// The lines of all general comments from index `i` on.
pub open spec fn spec_gen_lines(s: Seq<Comment>, i: int) -> Seq<Seq<char>>
    decreases s.len() - i,
{
    if i < 0 || i >= s.len() {
        Seq::empty()
    } else {
        spec_gen_entry(s[i]) + spec_gen_lines(s, i + 1)
    }
}

/// The span note of one rendered inline comment.
pub open spec fn spec_line_info(c: InlineComment) -> Seq<char> {
    if c.line_length > 1 {
        "Line "@ + dec_str(c.line_number as int) + "-"@ + dec_str(
            c.line_number as int + c.line_length as int - 1,
        )
    } else {
        "Line "@ + dec_str(c.line_number as int)
    }
}

/// The heading line of one rendered inline comment.
pub open spec fn spec_inl_heading(c: InlineComment) -> Seq<char> {
    "#### "@ + spec_line_info(c) + " - "@ + c.author@ + " ("@ + c.date@ + ")"@ + (if c.is_done {
        " [DONE]"@
    } else {
        Seq::<char>::empty()
    })
}

/// The lines one inline comment renders to.
pub open spec fn spec_inl_entry(c: InlineComment) -> Seq<Seq<char>> {
    seq![
        spec_inl_heading(c),
        Seq::<char>::empty(),
        (if c.content@.len() > 0 {
            c.content@
        } else {
            "*[No comment text]*"@
        }),
        Seq::<char>::empty(),
        "---"@,
        Seq::<char>::empty(),
    ]
}

/// The lines of the inline comments of one file, from index `i` on.
pub open spec fn spec_inl_lines(s: Seq<InlineComment>, i: int, path: Seq<char>) -> Seq<Seq<char>>
    decreases s.len() - i,
{
    if i < 0 || i >= s.len() {
        Seq::empty()
    } else {
        (if s[i].file_path@ == path {
            spec_inl_entry(s[i])
        } else {
            Seq::<Seq<char>>::empty()
        }) + spec_inl_lines(s, i + 1, path)
    }
}

/// The lines of all files from index `i` on.
pub open spec fn spec_files_lines(s: Seq<InlineComment>, fs: Seq<Seq<char>>, i: int) -> Seq<
    Seq<char>,
>
    decreases fs.len() - i,
{
    if i < 0 || i >= fs.len() {
        Seq::empty()
    } else {
        seq!["### File: `"@ + fs[i] + "`"@, Seq::<char>::empty()] + spec_inl_lines(s, 0, fs[i])
            + spec_files_lines(s, fs, i + 1)
    }
}

/// All lines of the rendered output.
pub open spec fn spec_markdown_lines(
    base: Seq<char>,
    diff_id: u32,
    gen0: Seq<Comment>,
    inl0: Seq<InlineComment>,
) -> Seq<Seq<char>> {
    let sg = spec_sort_gen(gen0);
    let si = spec_sort_inl(inl0);
    let head = seq![
        "# Phabricator Review Comments - "@ + base + "/D"@ + dec_str(diff_id as int),
        Seq::<char>::empty(),
    ];
    let gpart = if gen0.len() > 0 {
        seq!["## General Comments"@, Seq::<char>::empty()] + spec_gen_lines(sg, 0)
    } else {
        Seq::<Seq<char>>::empty()
    };
    let ipart = if inl0.len() > 0 {
        seq!["## Inline Comments"@, Seq::<char>::empty()] + spec_files_lines(
            si,
            spec_file_order(si),
            0,
        )
    } else {
        Seq::<Seq<char>>::empty()
    };
    head + gpart + ipart
}

/// The rendered output: the lines joined by line breaks.
pub open spec fn spec_markdown(
    base: Seq<char>,
    diff_id: u32,
    gen0: Seq<Comment>,
    inl0: Seq<InlineComment>,
) -> Seq<char> {
    spec_join(spec_markdown_lines(base, diff_id, gen0, inl0), '\n')
}

fn gen_entry(c: &Comment) -> (r: Vec<Vec<char>>)
    ensures
        r.deep_view() == spec_gen_entry(*c),
{
    let mut heading = str_chars("### Comment by ");
    let mut a = str_chars(c.author.as_str());
    let mut m = str_chars(" (");
    let mut d = str_chars(c.date.as_str());
    let mut e = str_chars(")");
    heading.append(&mut a);
    heading.append(&mut m);
    heading.append(&mut d);
    heading.append(&mut e);
    proof {
        assert(heading@ =~= spec_gen_heading(*c));
    }
    let mut out: Vec<Vec<char>> = Vec::new();
    out.push(heading);
    out.push(Vec::new());
    out.push(str_chars(c.content.as_str()));
    out.push(Vec::new());
    out.push(str_chars("---"));
    out.push(Vec::new());
    proof {
        assert(out.deep_view() =~~= spec_gen_entry(*c));
    }
    out
}

fn inl_entry(c: &InlineComment) -> (r: Vec<Vec<char>>)
    ensures
        r.deep_view() == spec_inl_entry(*c),
{
    let mut heading = str_chars("#### ");
    if c.line_length > 1 {
        let mut l1 = str_chars("Line ");
        let mut n1 = u64_to_chars(c.line_number as u64);
        let mut dash = str_chars("-");
        let hi: u64 = c.line_number as u64 + c.line_length as u64 - 1;
        let mut n2 = u64_to_chars(hi);
        l1.append(&mut n1);
        l1.append(&mut dash);
        l1.append(&mut n2);
        proof {
            assert(l1@ =~= spec_line_info(*c));
        }
        heading.append(&mut l1);
    } else {
        let mut l1 = str_chars("Line ");
        let mut n1 = u64_to_chars(c.line_number as u64);
        l1.append(&mut n1);
        proof {
            assert(l1@ =~= spec_line_info(*c));
        }
        heading.append(&mut l1);
    }
    let mut sep = str_chars(" - ");
    let mut a = str_chars(c.author.as_str());
    let mut m = str_chars(" (");
    let mut d = str_chars(c.date.as_str());
    let mut e = str_chars(")");
    heading.append(&mut sep);
    heading.append(&mut a);
    heading.append(&mut m);
    heading.append(&mut d);
    heading.append(&mut e);
    if c.is_done {
        let mut dm = str_chars(" [DONE]");
        heading.append(&mut dm);
    }
    proof {
        assert(heading@ =~= spec_inl_heading(*c));
    }
    let content = str_chars(c.content.as_str());
    let body: Vec<char> = if content.len() > 0 {
        content
    } else {
        str_chars("*[No comment text]*")
    };
    let mut out: Vec<Vec<char>> = Vec::new();
    out.push(heading);
    out.push(Vec::new());
    out.push(body);
    out.push(Vec::new());
    out.push(str_chars("---"));
    out.push(Vec::new());
    proof {
        assert(out.deep_view() =~~= spec_inl_entry(*c));
    }
    out
}

/// Renders classified comments as Markdown, general comments first in
/// time order, then inline comments grouped by file.
pub fn format_as_markdown(base_url: &str, comments_data: CommentsData, diff_id: u32) -> (r: String)
    ensures
        r@ == spec_markdown(
            base_url@,
            diff_id,
            comments_data.general_comments@,
            comments_data.inline_comments@,
        ),
{
    let ghost ggen = comments_data.general_comments@;
    let ghost ginl = comments_data.inline_comments@;
    let CommentsData { general_comments, inline_comments, review_actions: _ } = comments_data;
    let had_gen = general_comments.len() > 0;
    let had_inl = inline_comments.len() > 0;
    let sg = sort_gen(general_comments);
    let si = sort_inl(inline_comments);
    let mut lines: Vec<Vec<char>> = Vec::new();
    let mut head = str_chars("# Phabricator Review Comments - ");
    let mut b = str_chars(base_url);
    let mut sl = str_chars("/D");
    let mut num = u64_to_chars(diff_id as u64);
    head.append(&mut b);
    head.append(&mut sl);
    head.append(&mut num);
    proof {
        assert(head@ =~= "# Phabricator Review Comments - "@ + base_url@ + "/D"@ + dec_str(
            diff_id as int,
        ));
    }
    lines.push(head);
    lines.push(Vec::new());
    let ghost headlines = lines.deep_view();
    proof {
        assert(headlines =~~= seq![
            "# Phabricator Review Comments - "@ + base_url@ + "/D"@ + dec_str(diff_id as int),
            Seq::<char>::empty(),
        ]);
    }
    if had_gen {
        lines.push(str_chars("## General Comments"));
        lines.push(Vec::new());
        let ghost base0 = lines.deep_view();
        proof {
            assert(base0 =~~= headlines + seq!["## General Comments"@, Seq::<char>::empty()]);
        }
        let n = sg.len();
        let mut k: usize = 0;
        while k < n
            invariant
                0 <= k <= n,
                n == sg@.len(),
                lines.deep_view() + spec_gen_lines(sg@, k as int) == base0 + spec_gen_lines(
                    sg@,
                    0,
                ),
            decreases n - k,
        {
            let ghost pre = lines.deep_view();
            let mut es = gen_entry(&sg[k]);
            let ghost ges = es.deep_view();
            lines.append(&mut es);
            proof {
                assert(lines.deep_view() =~~= pre + ges);
                assert(spec_gen_lines(sg@, k as int) == spec_gen_entry(sg@[k as int])
                    + spec_gen_lines(sg@, k + 1));
                assert(lines.deep_view() + spec_gen_lines(sg@, k + 1) =~~= pre + (ges
                    + spec_gen_lines(sg@, k + 1)));
                assert(pre + spec_gen_lines(sg@, k as int) =~~= pre + (ges + spec_gen_lines(
                    sg@,
                    k + 1,
                )));
            }
            k = k + 1;
        }
        proof {
            assert(lines.deep_view() =~~= lines.deep_view() + spec_gen_lines(sg@, n as int));
        }
    }
    let ghost after_gen = lines.deep_view();
    if had_inl {
        lines.push(str_chars("## Inline Comments"));
        lines.push(Vec::new());
        let ghost base1 = lines.deep_view();
        proof {
            assert(base1 =~~= after_gen + seq!["## Inline Comments"@, Seq::<char>::empty()]);
        }
        let fs = file_order(&si);
        let nf = fs.len();
        let mut w: usize = 0;
        while w < nf
            invariant
                0 <= w <= nf,
                nf == fs@.len(),
                fs.deep_view() == spec_file_order(si@),
                fs.deep_view().len() == nf,
                lines.deep_view() + spec_files_lines(si@, fs.deep_view(), w as int) == base1
                    + spec_files_lines(si@, fs.deep_view(), 0),
            decreases nf - w,
        {
            let ghost prew = lines.deep_view();
            let ghost gfs = fs.deep_view();
            let ghost p = gfs[w as int];
            let mut fh = str_chars("### File: `");
            let mut pv = str_chars(fs[w].as_str());
            let fpat = str_chars(fs[w].as_str());
            let mut bt = str_chars("`");
            fh.append(&mut pv);
            fh.append(&mut bt);
            proof {
                assert(fh@ =~= "### File: `"@ + p + "`"@);
            }
            lines.push(fh);
            lines.push(Vec::new());
            let ghost basef = lines.deep_view();
            proof {
                assert(basef =~~= prew + seq!["### File: `"@ + p + "`"@, Seq::<char>::empty()]);
            }
            let m = si.len();
            let mut j: usize = 0;
            while j < m
                invariant
                    0 <= j <= m,
                    m == si@.len(),
                    fpat@ == p,
                    lines.deep_view() + spec_inl_lines(si@, j as int, p) == basef
                        + spec_inl_lines(si@, 0, p),
                decreases m - j,
            {
                let ghost prej = lines.deep_view();
                let cpath = str_chars(si[j].file_path.as_str());
                if chars_eq(&cpath, &fpat) {
                    let mut es = inl_entry(&si[j]);
                    let ghost ges = es.deep_view();
                    lines.append(&mut es);
                    proof {
                        assert(lines.deep_view() =~~= prej + ges);
                        assert(spec_inl_lines(si@, j as int, p) == spec_inl_entry(si@[j as int])
                            + spec_inl_lines(si@, j + 1, p));
                        assert(lines.deep_view() + spec_inl_lines(si@, j + 1, p) =~~= prej + (ges
                            + spec_inl_lines(si@, j + 1, p)));
                        assert(prej + spec_inl_lines(si@, j as int, p) =~~= prej + (ges
                            + spec_inl_lines(si@, j + 1, p)));
                    }
                } else {
                    proof {
                        assert(spec_inl_lines(si@, j as int, p) =~~= spec_inl_lines(
                            si@,
                            j + 1,
                            p,
                        ));
                    }
                }
                j = j + 1;
            }
            proof {
                assert(lines.deep_view() =~~= lines.deep_view() + spec_inl_lines(
                    si@,
                    m as int,
                    p,
                ));
                assert(spec_files_lines(si@, gfs, w as int) == seq![
                    "### File: `"@ + gfs[w as int] + "`"@,
                    Seq::<char>::empty(),
                ] + spec_inl_lines(si@, 0, gfs[w as int]) + spec_files_lines(si@, gfs, w + 1));
                assert(lines.deep_view() + spec_files_lines(si@, gfs, w + 1) =~~= prew + (seq![
                    "### File: `"@ + p + "`"@,
                    Seq::<char>::empty(),
                ] + spec_inl_lines(si@, 0, p) + spec_files_lines(si@, gfs, w + 1)));
                assert(prew + spec_files_lines(si@, gfs, w as int) =~~= prew + (seq![
                    "### File: `"@ + p + "`"@,
                    Seq::<char>::empty(),
                ] + spec_inl_lines(si@, 0, p) + spec_files_lines(si@, gfs, w + 1)));
            }
            w = w + 1;
        }
        proof {
            assert(lines.deep_view() =~~= lines.deep_view() + spec_files_lines(
                si@,
                fs.deep_view(),
                nf as int,
            ));
        }
    }
    proof {
        assert(lines.deep_view() =~~= spec_markdown_lines(base_url@, diff_id, ggen, ginl));
        assert(lines.deep_view().len() == lines@.len());
    }
    let joined = crate::text::join_lines(&lines, '\n');
    chars_to_string(&joined)
}

/// A run of general comments in time order.
pub open spec fn gen_sorted(s: Seq<Comment>) -> bool {
    forall|i: int, j: int|
        0 <= i <= j < s.len() ==> (#[trigger] s[i]).date_timestamp <= (#[trigger] s[j]).date_timestamp
}

proof fn lemma_insert_gen_props(s: Seq<Comment>, c: Comment)
    requires
        gen_sorted(s),
    ensures
        gen_sorted(spec_insert_gen(s, c)),
        spec_insert_gen(s, c).to_multiset() == s.to_multiset().insert(c),
    decreases s.len(),
{
    broadcast use vstd::seq_lib::group_to_multiset_ensures;

    if s.len() == 0 {
        assert(seq![c] =~= Seq::<Comment>::empty().push(c));
        assert(spec_insert_gen(s, c).to_multiset() =~= s.to_multiset().insert(c));
    } else if c.date_timestamp < s.last().date_timestamp {
        assert(gen_sorted(s.drop_last())) by {
            assert(forall|i: int|
                0 <= i < s.drop_last().len() ==> s.drop_last()[i] == (#[trigger] s[i]));
        }
        lemma_insert_gen_props(s.drop_last(), c);
        let inner = spec_insert_gen(s.drop_last(), c);
        let out = inner.push(s.last());
        assert forall|i: int, j: int|
            0 <= i <= j < out.len() implies (#[trigger] out[i]).date_timestamp
            <= (#[trigger] out[j]).date_timestamp by {
            if j < inner.len() {
                assert(out[i] == inner[i] && out[j] == inner[j]);
            } else {
                assert(out[j] == s.last());
                if i < inner.len() {
                    let x = inner[i];
                    assert(inner.contains(x));
                    assert(inner.to_multiset().count(x) > 0);
                    assert(s.drop_last().to_multiset().insert(c).count(x) > 0);
                    if x == c {
                    } else {
                        assert(s.drop_last().to_multiset().count(x) > 0);
                        assert(s.drop_last().contains(x));
                        let m = choose|m: int| 0 <= m < s.drop_last().len() && s.drop_last()[m]
                            == x;
                        assert(s[m] == x && x.date_timestamp <= s.last().date_timestamp);
                    }
                }
            }
        }
        assert(out.to_multiset() =~= s.to_multiset().insert(c)) by {
            assert(out.to_multiset() =~= inner.to_multiset().insert(s.last()));
            assert(s =~= s.drop_last().push(s.last()));
            assert(s.to_multiset() =~= s.drop_last().to_multiset().insert(s.last()));
        }
    } else {
        let out = s.push(c);
        assert forall|i: int, j: int|
            0 <= i <= j < out.len() implies (#[trigger] out[i]).date_timestamp
            <= (#[trigger] out[j]).date_timestamp by {
            if j < s.len() {
                assert(out[i] == s[i] && out[j] == s[j]);
            } else if i < s.len() {
                assert(out[i] == s[i] && s[i].date_timestamp <= s.last().date_timestamp);
            }
        }
    }
}

/// The rendering order is real: sorting general comments keeps exactly
/// the same records and leaves them in time order, so the rendered
/// general section is chronological.
pub proof fn lemma_sort_gen_ordered(s: Seq<Comment>)
    ensures
        gen_sorted(spec_sort_gen(s)),
        spec_sort_gen(s).to_multiset() == s.to_multiset(),
    decreases s.len(),
{
    broadcast use vstd::seq_lib::group_to_multiset_ensures;

    if s.len() > 0 {
        lemma_sort_gen_ordered(s.drop_last());
        lemma_insert_gen_props(spec_sort_gen(s.drop_last()), s.last());
        assert(s =~= s.drop_last().push(s.last()));
        assert(s.to_multiset() =~= s.drop_last().to_multiset().insert(s.last()));
    }
}

/// Nothing is strictly before itself under the lexicographic order.
proof fn lemma_chars_lt_irreflexive(a: Seq<char>)
    ensures
        !chars_lt(a, a),
    decreases a.len(),
{
    if a.len() > 0 {
        lemma_chars_lt_irreflexive(a.drop_first());
    }
}

/// No record is strictly before itself under the rendering order.
proof fn lemma_inl_lt_irreflexive(c: InlineComment)
    ensures
        !inl_lt(c, c),
{
    lemma_chars_lt_irreflexive(c.file_path@);
}

/// Strict lexicographic order never holds both ways.
proof fn lemma_chars_lt_asymmetric(a: Seq<char>, b: Seq<char>)
    requires
        chars_lt(a, b),
    ensures
        !chars_lt(b, a),
    decreases a.len(),
{
    if b.len() == 0 {
    } else if a.len() == 0 {
    } else if a[0] != b[0] {
    } else {
        lemma_chars_lt_asymmetric(a.drop_first(), b.drop_first());
    }
}

/// The rendering order on inline comments never holds both ways.
proof fn lemma_inl_lt_asymmetric(a: InlineComment, b: InlineComment)
    requires
        inl_lt(a, b),
    ensures
        !inl_lt(b, a),
{
    if a.date_timestamp == b.date_timestamp && chars_lt(a.file_path@, b.file_path@) {
        lemma_chars_lt_asymmetric(a.file_path@, b.file_path@);
    }
}

/// A run of inline comments in rendering order: no later record stands
/// strictly before an earlier one.
pub open spec fn inl_sorted(s: Seq<InlineComment>) -> bool {
    forall|i: int, j: int| 0 <= i <= j < s.len() ==> !inl_lt(#[trigger] s[j], #[trigger] s[i])
}

proof fn lemma_insert_inl_props(s: Seq<InlineComment>, c: InlineComment)
    requires
        inl_sorted(s),
    ensures
        inl_sorted(spec_insert_inl(s, c)),
        spec_insert_inl(s, c).to_multiset() == s.to_multiset().insert(c),
    decreases s.len(),
{
    broadcast use vstd::seq_lib::group_to_multiset_ensures;

    if s.len() == 0 {
        assert(seq![c] =~= Seq::<InlineComment>::empty().push(c));
        assert(spec_insert_inl(s, c).to_multiset() =~= s.to_multiset().insert(c));
        lemma_inl_lt_irreflexive(c);
    } else if inl_lt(c, s.last()) {
        assert(inl_sorted(s.drop_last())) by {
            assert(forall|i: int|
                0 <= i < s.drop_last().len() ==> s.drop_last()[i] == (#[trigger] s[i]));
        }
        lemma_insert_inl_props(s.drop_last(), c);
        let inner = spec_insert_inl(s.drop_last(), c);
        let out = inner.push(s.last());
        assert forall|i: int, j: int|
            0 <= i <= j < out.len() implies !inl_lt(#[trigger] out[j], #[trigger] out[i]) by {
            if j < inner.len() {
                assert(out[i] == inner[i] && out[j] == inner[j]);
            } else {
                assert(out[j] == s.last());
                if i < inner.len() {
                    let x = inner[i];
                    assert(inner.contains(x));
                    assert(inner.to_multiset().count(x) > 0);
                    assert(s.drop_last().to_multiset().insert(c).count(x) > 0);
                    if x == c {
                        lemma_inl_lt_asymmetric(c, s.last());
                    } else {
                        assert(s.drop_last().to_multiset().count(x) > 0);
                        assert(s.drop_last().contains(x));
                        let m = choose|m: int| 0 <= m < s.drop_last().len() && s.drop_last()[m]
                            == x;
                        assert(s[m] == x && !inl_lt(s.last(), x));
                    }
                } else {
                    lemma_inl_lt_irreflexive(s.last());
                }
            }
        }
        assert(out.to_multiset() =~= s.to_multiset().insert(c)) by {
            assert(out.to_multiset() =~= inner.to_multiset().insert(s.last()));
            assert(s =~= s.drop_last().push(s.last()));
            assert(s.to_multiset() =~= s.drop_last().to_multiset().insert(s.last()));
        }
    } else {
        let out = s.push(c);
        assert forall|i: int, j: int|
            0 <= i <= j < out.len() implies !inl_lt(#[trigger] out[j], #[trigger] out[i]) by {
            if j < s.len() {
                assert(out[i] == s[i] && out[j] == s[j]);
            } else if i < s.len() {
                assert(out[i] == s[i] && out[j] == c);
                assert(!inl_lt(s.last(), s[i]));
                lemma_inl_not_lt_trans(c, s.last(), s[i]);
            } else {
                lemma_inl_lt_irreflexive(c);
            }
        }
    }
}

/// Strict lexicographic order is transitive.
proof fn lemma_chars_lt_trans(a: Seq<char>, b: Seq<char>, c: Seq<char>)
    requires
        chars_lt(a, b),
        chars_lt(b, c),
    ensures
        chars_lt(a, c),
    decreases a.len() + b.len() + c.len(),
{
    if a.len() == 0 {
    } else if a[0] != b[0] {
        if b[0] != c[0] {
        } else {
        }
    } else if b[0] != c[0] {
    } else {
        lemma_chars_lt_trans(a.drop_first(), b.drop_first(), c.drop_first());
    }
}

/// Not-before chains: what is not before one record, which is not before
/// another, is not before that other either.
proof fn lemma_inl_not_lt_trans(a: InlineComment, b: InlineComment, c: InlineComment)
    requires
        !inl_lt(a, b),
        !inl_lt(b, c),
    ensures
        !inl_lt(a, c),
{
    if inl_lt(a, c) {
        assert(a.date_timestamp == c.date_timestamp && b.date_timestamp == a.date_timestamp);
        lemma_chars_lt_connected(a.file_path@, b.file_path@);
        lemma_chars_lt_connected(b.file_path@, c.file_path@);
        if chars_lt(a.file_path@, c.file_path@) {
            if a.file_path@ == b.file_path@ {
            } else {
                assert(chars_lt(b.file_path@, a.file_path@));
                lemma_chars_lt_trans(b.file_path@, a.file_path@, c.file_path@);
            }
        } else {
            assert(a.file_path@ == c.file_path@ && a.line_number < c.line_number);
            if chars_lt(b.file_path@, a.file_path@) {
                assert(chars_lt(b.file_path@, c.file_path@));
            } else {
                assert(a.file_path@ == b.file_path@ && b.file_path@ == c.file_path@);
            }
        }
    }
}

/// The rendered inline section is ordered: sorting keeps exactly the
/// same records and no later record stands strictly before an earlier
/// one, so within each file the entries run chronologically.
pub proof fn lemma_sort_inl_ordered(s: Seq<InlineComment>)
    ensures
        inl_sorted(spec_sort_inl(s)),
        spec_sort_inl(s).to_multiset() == s.to_multiset(),
    decreases s.len(),
{
    broadcast use vstd::seq_lib::group_to_multiset_ensures;

    if s.len() > 0 {
        lemma_sort_inl_ordered(s.drop_last());
        lemma_insert_inl_props(spec_sort_inl(s.drop_last()), s.last());
        assert(s =~= s.drop_last().push(s.last()));
        assert(s.to_multiset() =~= s.drop_last().to_multiset().insert(s.last()));
    }
}


/// Two distinct character sequences are ordered one way or the other.
proof fn lemma_chars_lt_connected(a: Seq<char>, b: Seq<char>)
    ensures
        a == b || chars_lt(a, b) || chars_lt(b, a),
    decreases a.len(),
{
    if b.len() == 0 {
        if a.len() == 0 {
            assert(a =~= b);
        } else {
            assert(chars_lt(b, a));
        }
    } else if a.len() == 0 {
        assert(chars_lt(a, b));
    } else if a[0] != b[0] {
        if a[0] < b[0] {
            assert(chars_lt(a, b));
        } else {
            assert(b[0] < a[0]);
            assert(chars_lt(b, a));
        }
    } else {
        lemma_chars_lt_connected(a.drop_first(), b.drop_first());
        if a.drop_first() == b.drop_first() {
            assert(a =~= b) by {
                assert(a.drop_first().len() == a.len() - 1);
                assert(b.drop_first().len() == b.len() - 1);
                assert(a.len() == b.len());
                assert forall|k: int| 0 <= k < a.len() implies a[k] == b[k] by {
                    if k >= 1 {
                        assert(a[k] == a.drop_first()[k - 1]);
                        assert(b[k] == b.drop_first()[k - 1]);
                    }
                }
            }
        }
    }
}


/// Grouping is complete: every record's file appears in the file order,
/// so with the sort lemmas every inline comment is rendered under some
/// file heading.
pub proof fn lemma_file_order_complete(s: Seq<InlineComment>, k: int)
    requires
        0 <= k < s.len(),
    ensures
        spec_file_order(s).contains(s[k].file_path@),
    decreases s.len(),
{
    if k == s.len() - 1 {
        let prior = spec_file_order(s.drop_last());
        if prior.contains(s.last().file_path@) {
        } else {
            assert(prior.push(s.last().file_path@).last() == s.last().file_path@);
        }
    } else {
        assert(s.drop_last()[k] == s[k]);
        lemma_file_order_complete(s.drop_last(), k);
        let prior = spec_file_order(s.drop_last());
        let w = choose|w: int| 0 <= w < prior.len() && prior[w] == s[k].file_path@;
        if prior.contains(s.last().file_path@) {
        } else {
            assert(prior.push(s.last().file_path@)[w] == s[k].file_path@);
        }
    }
}

} // verus!
