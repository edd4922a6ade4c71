//! Classification of a revision's transactions into comment records:
//! general comments, inline comments (with suggestion resolutions
//! substituted into empty ones), and review-state actions. The network
//! work of resolving suggestions happens outside; this takes its results.
use vstd::prelude::*;

verus! {

use crate::api::{Transaction, CommentEntry, opt_string_view};
use crate::json::{JVal, spec_obj_get, Json, obj_get};
use crate::cookies::spec_lookup;
use crate::api::UserCache;
use crate::time::timestamp_text;
use crate::text::{str_chars, chars_to_string};

/// A general comment on the revision.
pub struct Comment {
    pub author: String,
    pub author_phid: String,
    pub date: String,
    pub date_timestamp: u64,
    pub content: String,
    pub transaction_id: String,
    pub comment_id: String,
}

/// An inline comment anchored to a file and line.
pub struct InlineComment {
    pub author: String,
    pub author_phid: String,
    pub date: String,
    pub date_timestamp: u64,
    pub content: String,
    pub file_path: String,
    pub line_number: u32,
    pub line_length: u32,
    pub diff_id: String,
    pub is_done: bool,
    pub transaction_id: String,
    pub comment_id: String,
}

/// A review-state transition with its attached remarks.
pub struct ReviewAction {
    pub author: String,
    pub author_phid: String,
    pub date: String,
    pub action: String,
    pub comments: Vec<String>,
    pub transaction_id: String,
}

/// Everything the classification yields.
pub struct CommentsData {
    pub general_comments: Vec<Comment>,
    pub inline_comments: Vec<InlineComment>,
    pub review_actions: Vec<ReviewAction>,
}

/// The model of a general comment.
#[verifier::ext_equal]
pub struct GComment {
    pub author: Seq<char>,
    pub author_phid: Seq<char>,
    pub date: Seq<char>,
    pub date_timestamp: u64,
    pub content: Seq<char>,
    pub transaction_id: Seq<char>,
    pub comment_id: Seq<char>,
}

/// The model of an inline comment.
#[verifier::ext_equal]
pub struct GInline {
    pub author: Seq<char>,
    pub author_phid: Seq<char>,
    pub date: Seq<char>,
    pub date_timestamp: u64,
    pub content: Seq<char>,
    pub file_path: Seq<char>,
    pub line_number: u32,
    pub line_length: u32,
    pub diff_id: Seq<char>,
    pub is_done: bool,
    pub transaction_id: Seq<char>,
    pub comment_id: Seq<char>,
}

/// The model of a review action.
#[verifier::ext_equal]
pub struct GAction {
    pub author: Seq<char>,
    pub author_phid: Seq<char>,
    pub date: Seq<char>,
    pub action: Seq<char>,
    pub comments: Seq<Seq<char>>,
    pub transaction_id: Seq<char>,
}

/// The model of the classification's result.
#[verifier::ext_equal]
pub struct GData {
    pub general: Seq<GComment>,
    pub inline: Seq<GInline>,
    pub actions: Seq<GAction>,
}

/// A general comment as its model.
pub open spec fn gview_comment(c: Comment) -> GComment {
    GComment {
        author: c.author@,
        author_phid: c.author_phid@,
        date: c.date@,
        date_timestamp: c.date_timestamp,
        content: c.content@,
        transaction_id: c.transaction_id@,
        comment_id: c.comment_id@,
    }
}

/// An inline comment as its model.
pub open spec fn gview_inline(c: InlineComment) -> GInline {
    GInline {
        author: c.author@,
        author_phid: c.author_phid@,
        date: c.date@,
        date_timestamp: c.date_timestamp,
        content: c.content@,
        file_path: c.file_path@,
        line_number: c.line_number,
        line_length: c.line_length,
        diff_id: c.diff_id@,
        is_done: c.is_done,
        transaction_id: c.transaction_id@,
        comment_id: c.comment_id@,
    }
}

/// A review action as its model.
pub open spec fn gview_action(a: ReviewAction) -> GAction {
    GAction {
        author: a.author@,
        author_phid: a.author_phid@,
        date: a.date@,
        action: a.action@,
        comments: a.comments.deep_view(),
        transaction_id: a.transaction_id@,
    }
}

/// Partial results as a model.
pub open spec fn gd_of(g: Seq<Comment>, il: Seq<InlineComment>, a: Seq<ReviewAction>) -> GData {
    GData {
        general: Seq::new(g.len(), |k: int| gview_comment(g[k])),
        inline: Seq::new(il.len(), |k: int| gview_inline(il[k])),
        actions: Seq::new(a.len(), |k: int| gview_action(a[k])),
    }
}

/// The classification's result as its model.
pub open spec fn gview_data(d: CommentsData) -> GData {
    gd_of(d.general_comments@, d.inline_comments@, d.review_actions@)
}

/// The anchored line a field payload names; zero means unknown.
pub open spec fn line_of(f: JVal) -> u64 {
    match f {
        JVal::Obj(fm) => match spec_obj_get(fm, "line"@) {
            Some(JVal::Int(i)) => if i >= 0 {
                i as u64
            } else {
                0
            },
            _ => 0,
        },
        _ => 0,
    }
}

/// The anchored span length; one when unsaid.
pub open spec fn length_of(f: JVal) -> u64 {
    match f {
        JVal::Obj(fm) => match spec_obj_get(fm, "length"@) {
            Some(JVal::Int(i)) => if i >= 0 {
                i as u64
            } else {
                1
            },
            _ => 1,
        },
        _ => 1,
    }
}

/// The anchored file path; empty when unsaid.
pub open spec fn path_of(f: JVal) -> Seq<char> {
    match f {
        JVal::Obj(fm) => match spec_obj_get(fm, "path"@) {
            Some(JVal::Str(t)) => t,
            _ => Seq::empty(),
        },
        _ => Seq::empty(),
    }
}

/// The diff identifier of the anchoring changeset, written as the
/// identifier value renders; empty when unsaid.
pub open spec fn inline_diff_id_of(f: JVal) -> Seq<char> {
    match f {
        JVal::Obj(fm) => match spec_obj_get(fm, "diff"@) {
            Some(JVal::Obj(dm)) => match spec_obj_get(dm, "id"@) {
                Some(x) => crate::api::id_text_of(x),
                None => Seq::empty(),
            },
            _ => Seq::empty(),
        },
        _ => Seq::empty(),
    }
}

/// Whether the comment is marked done.
pub open spec fn done_of(f: JVal) -> bool {
    match f {
        JVal::Obj(fm) => match spec_obj_get(fm, "isDone"@) {
            Some(JVal::Bool(b)) => b,
            _ => false,
        },
        _ => false,
    }
}

/// The display name recorded for an author, falling back to the
/// identifier itself.
pub open spec fn author_of(names: Seq<(Seq<char>, Seq<char>)>, phid: Seq<char>) -> Seq<char> {
    match spec_lookup(names, phid) {
        Some(n) => n,
        None => phid,
    }
}

/// The author identifier of a transaction, read as `unknown` when
/// unsaid.
pub open spec fn phid_of(t: Transaction) -> Seq<char> {
    match opt_string_view(t.author_phid) {
        Some(p) => p,
        None => "unknown"@,
    }
}

/// An inline comment entry asks for suggestion resolution when its text
/// is empty and its anchor is usable.
pub open spec fn wants_resolution(c: CommentEntry, f: JVal) -> bool {
    raw_empty(c) && line_of(f) as u32 > 0 && path_of(f).len() > 0
}

/// The comment's own text is missing or empty.
pub open spec fn raw_empty(c: CommentEntry) -> bool {
    match opt_string_view(c.raw) {
        Some(t) => t.len() == 0,
        None => true,
    }
}

/// The placeholder written for a general comment without text.
pub open spec fn empty_comment_text() -> Seq<char> {
    "*[Empty comment]*"@
}

/// The placeholder written for an inline comment whose suggestion could
/// not be recovered.
pub open spec fn unavailable_text() -> Seq<char> {
    "*[Empty inline comment - likely contains a code suggestion that cannot be extracted via API]*"@
}

/// One comment of an inline transaction, after resolution: the number of
/// resolutions consumed and the content recorded.
pub open spec fn inline_content(
    c: CommentEntry,
    f: JVal,
    resolutions: Seq<Option<Seq<char>>>,
    ridx: int,
) -> (Seq<char>, int) {
    if raw_empty(c) {
        if line_of(f) as u32 > 0 && path_of(f).len() > 0 {
            if 0 <= ridx < resolutions.len() {
                match resolutions[ridx] {
                    Some(t) => (t, ridx + 1),
                    None => (unavailable_text(), ridx + 1),
                }
            } else {
                (unavailable_text(), ridx)
            }
        } else {
            (unavailable_text(), ridx)
        }
    } else {
        (
            match opt_string_view(c.raw) {
                Some(t) => t,
                None => Seq::empty(),
            },
            ridx,
        )
    }
}

/// The transaction's kind, read as `unknown` when unsaid.
pub open spec fn ty_of(t: Transaction) -> Seq<char> {
    match opt_string_view(t.transaction_type) {
        Some(s) => s,
        None => "unknown"@,
    }
}

/// The content recorded for a general comment.
pub open spec fn gen_content(c: CommentEntry) -> Seq<char> {
    if raw_empty(c) {
        empty_comment_text()
    } else {
        match opt_string_view(c.raw) {
            Some(t) => t,
            None => Seq::empty(),
        }
    }
}

/// The general comments one transaction contributes, from index `j` on.
pub open spec fn spec_gen_fold(
    cs: Seq<CommentEntry>,
    j: int,
    author: Seq<char>,
    phid: Seq<char>,
    date: Seq<char>,
    dts: u64,
    txid: Seq<char>,
    acc: Seq<GComment>,
) -> Seq<GComment>
    decreases cs.len() - j,
{
    if j < 0 || j >= cs.len() {
        acc
    } else {
        spec_gen_fold(
            cs,
            j + 1,
            author,
            phid,
            date,
            dts,
            txid,
            acc.push(
                GComment {
                    author: author,
                    author_phid: phid,
                    date: date,
                    date_timestamp: dts,
                    content: gen_content(cs[j]),
                    transaction_id: txid,
                    comment_id: cs[j].id_text@,
                },
            ),
        )
    }
}

/// The inline comments one transaction contributes, from index `j` on,
/// with the count of resolutions consumed.
pub open spec fn spec_inline_fold(
    cs: Seq<CommentEntry>,
    j: int,
    f: JVal,
    resolutions: Seq<Option<Seq<char>>>,
    ridx: int,
    include_done: bool,
    author: Seq<char>,
    phid: Seq<char>,
    date: Seq<char>,
    dts: u64,
    txid: Seq<char>,
    acc: Seq<GInline>,
) -> (Seq<GInline>, int)
    decreases cs.len() - j,
{
    if j < 0 || j >= cs.len() {
        (acc, ridx)
    } else {
        let cr = inline_content(cs[j], f, resolutions, ridx);
        let keep = !(done_of(f) && !include_done);
        let acc2 = if keep {
            acc.push(
                GInline {
                    author: author,
                    author_phid: phid,
                    date: date,
                    date_timestamp: dts,
                    content: cr.0,
                    file_path: path_of(f),
                    line_number: line_of(f) as u32,
                    line_length: length_of(f) as u32,
                    diff_id: inline_diff_id_of(f),
                    is_done: done_of(f),
                    transaction_id: txid,
                    comment_id: cs[j].id_text@,
                },
            )
        } else {
            acc
        };
        spec_inline_fold(
            cs,
            j + 1,
            f,
            resolutions,
            cr.1,
            include_done,
            author,
            phid,
            date,
            dts,
            txid,
            acc2,
        )
    }
}

/// The remarks a review action carries: its comments' nonempty texts.
pub open spec fn spec_action_texts(cs: Seq<CommentEntry>, j: int, acc: Seq<Seq<char>>) -> Seq<
    Seq<char>,
>
    decreases cs.len() - j,
{
    if j < 0 || j >= cs.len() {
        acc
    } else {
        let acc2 = if !raw_empty(cs[j]) {
            acc.push(
                match opt_string_view(cs[j].raw) {
                    Some(t) => t,
                    None => Seq::empty(),
                },
            )
        } else {
            acc
        };
        spec_action_texts(cs, j + 1, acc2)
    }
}

/// A review-state transition kind.
pub open spec fn is_action_ty(ty: Seq<char>) -> bool {
    ty == "request-changes"@ || ty == "accept"@ || ty == "reject"@ || ty == "request-review"@
}

/// What one transaction adds to the classification, with the count of
/// resolutions consumed.
pub open spec fn spec_apply_tx(
    t: Transaction,
    names: Seq<(Seq<char>, Seq<char>)>,
    resolutions: Seq<Option<Seq<char>>>,
    include_done: bool,
    acc: GData,
    ridx: int,
) -> (GData, int) {
    let phid = phid_of(t);
    let author = author_of(names, phid);
    let date = timestamp_text(t.date_created);
    let ty = ty_of(t);
    if ty == "comment"@ {
        (
            GData {
                general: spec_gen_fold(
                    t.comments@,
                    0,
                    author,
                    phid,
                    date,
                    t.date_created,
                    t.id_text@,
                    acc.general,
                ),
                ..acc
            },
            ridx,
        )
    } else if ty == "inline"@ {
        let fr = spec_inline_fold(
            t.comments@,
            0,
            t.fields@,
            resolutions,
            ridx,
            include_done,
            author,
            phid,
            date,
            t.date_created,
            t.id_text@,
            acc.inline,
        );
        (GData { inline: fr.0, ..acc }, fr.1)
    } else if is_action_ty(ty) {
        (
            GData {
                actions: acc.actions.push(
                    GAction {
                        author: author,
                        author_phid: phid,
                        date: date,
                        action: ty,
                        comments: spec_action_texts(t.comments@, 0, Seq::empty()),
                        transaction_id: t.id_text@,
                    },
                ),
                ..acc
            },
            ridx,
        )
    } else {
        (acc, ridx)
    }
}

/// The classification of all transactions from index `i` on.
pub open spec fn spec_extract_from(
    ts: Seq<Transaction>,
    names: Seq<(Seq<char>, Seq<char>)>,
    resolutions: Seq<Option<Seq<char>>>,
    include_done: bool,
    i: int,
    acc: GData,
    ridx: int,
) -> GData
    decreases ts.len() - i,
{
    if i < 0 || i >= ts.len() {
        acc
    } else {
        let ar = spec_apply_tx(ts[i], names, resolutions, include_done, acc, ridx);
        spec_extract_from(ts, names, resolutions, include_done, i + 1, ar.0, ar.1)
    }
}

/// The empty classification.
pub open spec fn empty_gdata() -> GData {
    GData { general: Seq::empty(), inline: Seq::empty(), actions: Seq::empty() }
}

/// The classification a transaction listing yields, given the recorded
/// author names and the suggestion resolutions in request order.
pub open spec fn spec_extract_comments(
    ts: Seq<Transaction>,
    names: Seq<(Seq<char>, Seq<char>)>,
    resolutions: Seq<Option<Seq<char>>>,
    include_done: bool,
) -> GData {
    spec_extract_from(ts, names, resolutions, include_done, 0, empty_gdata(), 0)
}

/// Resolutions as their models.
pub open spec fn res_view(rs: Seq<Option<String>>) -> Seq<Option<Seq<char>>> {
    Seq::new(rs.len(), |k: int| opt_string_view(rs[k]))
}

/// One pending suggestion resolution: the anchor of an empty inline
/// comment.
pub struct SuggestionRequest {
    pub line_number: u32,
    pub file_path: String,
}

/// The anchors of the empty inline comments, from transaction `i` on, in
/// the order resolutions are later consumed.
pub open spec fn spec_requests_from(ts: Seq<Transaction>, i: int, acc: Seq<(u32, Seq<char>)>) -> Seq<
    (u32, Seq<char>),
>
    decreases ts.len() - i,
{
    if i < 0 || i >= ts.len() {
        acc
    } else {
        let acc2 = if ty_of(ts[i]) == "inline"@ {
            spec_tx_requests(ts[i].comments@, 0, ts[i].fields@, acc)
        } else {
            acc
        };
        spec_requests_from(ts, i + 1, acc2)
    }
}

/// The anchors one inline transaction contributes.
pub open spec fn spec_tx_requests(
    cs: Seq<CommentEntry>,
    j: int,
    f: JVal,
    acc: Seq<(u32, Seq<char>)>,
) -> Seq<(u32, Seq<char>)>
    decreases cs.len() - j,
{
    if j < 0 || j >= cs.len() {
        acc
    } else {
        let acc2 = if wants_resolution(cs[j], f) {
            acc.push((line_of(f) as u32, path_of(f)))
        } else {
            acc
        };
        spec_tx_requests(cs, j + 1, f, acc2)
    }
}

/// All pending anchors of a listing.
pub open spec fn spec_requests(ts: Seq<Transaction>) -> Seq<(u32, Seq<char>)> {
    spec_requests_from(ts, 0, Seq::empty())
}

/// Requests as their models.
pub open spec fn req_view(rs: Seq<SuggestionRequest>) -> Seq<(u32, Seq<char>)> {
    Seq::new(rs.len(), |k: int| (rs[k].line_number, rs[k].file_path@))
}

fn is_ty(t: &Transaction, name: &str) -> (r: bool)
    ensures
        r == (ty_of(*t) == name@),
{
    let nv = str_chars(name);
    match &t.transaction_type {
        Some(s) => {
            let sv = str_chars(s.as_str());
            crate::text::chars_eq(&sv, &nv)
        },
        None => {
            let uv = str_chars("unknown");
            proof {
                reveal_strlit("unknown");
            }
            crate::text::chars_eq(&uv, &nv)
        },
    }
}

fn field_line(f: &Json) -> (r: u64)
    ensures
        r == line_of(f@),
{
    let key = str_chars("line");
    match f {
        Json::Obj(fm) => {
            match obj_get(fm, &key) {
                Some(v) => match v {
                    Json::Int(i) => {
                        if *i >= 0 {
                            *i as u64
                        } else {
                            0
                        }
                    },
                    _ => 0,
                },
                None => 0,
            }
        },
        _ => 0,
    }
}

fn field_length(f: &Json) -> (r: u64)
    ensures
        r == length_of(f@),
{
    let key = str_chars("length");
    match f {
        Json::Obj(fm) => {
            match obj_get(fm, &key) {
                Some(v) => match v {
                    Json::Int(i) => {
                        if *i >= 0 {
                            *i as u64
                        } else {
                            1
                        }
                    },
                    _ => 1,
                },
                None => 1,
            }
        },
        _ => 1,
    }
}

fn field_path(f: &Json) -> (r: String)
    ensures
        r@ == path_of(f@),
{
    let key = str_chars("path");
    match f {
        Json::Obj(fm) => {
            match obj_get(fm, &key) {
                Some(v) => match v {
                    Json::Str(t) => chars_to_string(t),
                    _ => String::new(),
                },
                None => String::new(),
            }
        },
        _ => String::new(),
    }
}

fn field_diff_id(f: &Json) -> (r: String)
    ensures
        r@ == inline_diff_id_of(f@),
{
    let dkey = str_chars("diff");
    let ikey = str_chars("id");
    match f {
        Json::Obj(fm) => {
            match obj_get(fm, &dkey) {
                Some(dv) => match dv {
                    Json::Obj(dm) => {
                        match obj_get(dm, &ikey) {
                            Some(x) => crate::api::id_text(x),
                            None => String::new(),
                        }
                    },
                    _ => String::new(),
                },
                None => String::new(),
            }
        },
        _ => String::new(),
    }
}

fn field_done(f: &Json) -> (r: bool)
    ensures
        r == done_of(f@),
{
    let key = str_chars("isDone");
    match f {
        Json::Obj(fm) => {
            match obj_get(fm, &key) {
                Some(v) => match v {
                    Json::Bool(b) => *b,
                    _ => false,
                },
                None => false,
            }
        },
        _ => false,
    }
}

fn raw_is_empty(c: &CommentEntry) -> (r: bool)
    ensures
        r == raw_empty(*c),
{
    match &c.raw {
        Some(s) => s.as_str().is_empty(),
        None => true,
    }
}

/// Lists the anchors of the empty inline comments, in resolution order.
pub fn plan_suggestion_requests(ts: &Vec<Transaction>) -> (r: Vec<SuggestionRequest>)
    ensures
        req_view(r@) == spec_requests(ts@),
{
    let n = ts.len();
    let mut out: Vec<SuggestionRequest> = Vec::new();
    proof {
        assert(req_view(out@) =~~= Seq::<(u32, Seq<char>)>::empty());
    }
    let mut i: usize = 0;
    while i < n
        invariant
            0 <= i <= n,
            n == ts@.len(),
            spec_requests(ts@) == spec_requests_from(ts@, i as int, req_view(out@)),
        decreases n - i,
    {
        if is_ty(&ts[i], "inline") {
            proof {
                reveal_strlit("inline");
            }
            let ghost f = ts@[i as int].fields@;
            let cs_len = ts[i].comments.len();
            let mut j: usize = 0;
            while j < cs_len
                invariant
                    0 <= j <= cs_len,
                    i < n,
                    n == ts@.len(),
                    cs_len == ts@[i as int].comments@.len(),
                    ty_of(ts@[i as int]) == "inline"@,
                    f == ts@[i as int].fields@,
                    spec_requests(ts@) == spec_requests_from(
                        ts@,
                        i + 1,
                        spec_tx_requests(ts@[i as int].comments@, j as int, f, req_view(out@)),
                    ),
                decreases cs_len - j,
            {
                let ghost pre = req_view(out@);
                let line64 = field_line(&ts[i].fields);
                let line32: u32 = #[verifier::truncate] (line64 as u32);
                if raw_is_empty(&ts[i].comments[j]) && line32 > 0 {
                    let p = field_path(&ts[i].fields);
                    if !p.as_str().is_empty() {
                        let ghost gp = p@;
                        out.push(SuggestionRequest { line_number: line32, file_path: p });
                        proof {
                            assert(wants_resolution(
                                ts@[i as int].comments@[j as int],
                                f,
                            ));
                            assert(req_view(out@) =~~= pre.push((line32, gp)));
                        }
                    } else {
                        proof {
                            assert(!wants_resolution(
                                ts@[i as int].comments@[j as int],
                                f,
                            ));
                        }
                    }
                } else {
                    proof {
                        assert(!wants_resolution(ts@[i as int].comments@[j as int], f));
                    }
                }
                j = j + 1;
            }
        }
        i = i + 1;
    }
    proof {
        assert(spec_requests_from(ts@, n as int, req_view(out@)) == req_view(out@));
    }
    out
}

/// Classifies a transaction listing into comment records. `names` maps
/// author identifiers to display names; `resolutions` carries the
/// suggestion texts recovered for the empty inline comments, in the
/// order `plan_suggestion_requests` lists them; `include_done` keeps
/// inline comments already marked done.
pub fn extract_comments(
    ts: &Vec<Transaction>,
    names: &UserCache,
    resolutions: &Vec<Option<String>>,
    include_done: bool,
) -> (r: CommentsData)
    ensures
        gview_data(r) == spec_extract_comments(
            ts@,
            names.view_entries(),
            res_view(resolutions@),
            include_done,
        ),
{
    let ghost gnames = names.view_entries();
    let ghost gres = res_view(resolutions@);
    let rn = resolutions.len();
    let n = ts.len();
    let mut gen: Vec<Comment> = Vec::new();
    let mut inl: Vec<InlineComment> = Vec::new();
    let mut act: Vec<ReviewAction> = Vec::new();
    let mut ridx: usize = 0;
    proof {
        assert(gd_of(gen@, inl@, act@) =~~= empty_gdata());
    }
    let mut i: usize = 0;
    while i < n
        invariant
            0 <= i <= n,
            n == ts@.len(),
            rn == resolutions@.len(),
            gnames == names.view_entries(),
            gres == res_view(resolutions@),
            gres.len() == rn,
            ridx <= rn,
            spec_extract_comments(ts@, gnames, gres, include_done) == spec_extract_from(
                ts@,
                gnames,
                gres,
                include_done,
                i as int,
                gd_of(gen@, inl@, act@),
                ridx as int,
            ),
        decreases n - i,
    {
        let phid: String = match &ts[i].author_phid {
            Some(s) => s.clone(),
            None => {
                let uv = str_chars("unknown");
                chars_to_string(&uv)
            },
        };
        let author: String = match names.lookup(phid.as_str()) {
            Some(nm) => nm,
            None => phid.clone(),
        };
        let date: String = crate::time::format_timestamp(ts[i].date_created);
        proof {
            assert(phid@ == phid_of(ts@[i as int]));
            assert(author@ == author_of(gnames, phid_of(ts@[i as int])));
        }
        let ghost gphid = phid@;
        let ghost gauthor = author@;
        let ghost gdate = date@;
        let ghost gtxid = ts@[i as int].id_text@;
        let ghost dts = ts@[i as int].date_created;
        if is_ty(&ts[i], "comment") {
            let ghost pre_gd = gd_of(gen@, inl@, act@);
            let cs_len = ts[i].comments.len();
            let mut j: usize = 0;
            while j < cs_len
                invariant
                    0 <= j <= cs_len,
                    i < n,
                    n == ts@.len(),
                    cs_len == ts@[i as int].comments@.len(),
                    gphid == phid_of(ts@[i as int]),
                    gauthor == author_of(gnames, gphid),
                    gdate == timestamp_text(ts@[i as int].date_created),
                    gtxid == ts@[i as int].id_text@,
                    dts == ts@[i as int].date_created,
                    author@ == gauthor,
                    phid@ == gphid,
                    date@ == gdate,
                    gd_of(gen@, inl@, act@).inline == pre_gd.inline,
                    gd_of(gen@, inl@, act@).actions == pre_gd.actions,
                    spec_gen_fold(
                        ts@[i as int].comments@,
                        0,
                        gauthor,
                        gphid,
                        gdate,
                        dts,
                        gtxid,
                        pre_gd.general,
                    ) == spec_gen_fold(
                        ts@[i as int].comments@,
                        j as int,
                        gauthor,
                        gphid,
                        gdate,
                        dts,
                        gtxid,
                        gd_of(gen@, inl@, act@).general,
                    ),
                decreases cs_len - j,
            {
                let ghost pre_gen = gd_of(gen@, inl@, act@).general;
                let content: String = if raw_is_empty(&ts[i].comments[j]) {
                    let ev = str_chars("*[Empty comment]*");
                    chars_to_string(&ev)
                } else {
                    match &ts[i].comments[j].raw {
                        Some(s) => s.clone(),
                        None => String::new(),
                    }
                };
                proof {
                    assert(content@ == gen_content(ts@[i as int].comments@[j as int]));
                }
                let c = Comment {
                    author: author.clone(),
                    author_phid: phid.clone(),
                    date: date.clone(),
                    date_timestamp: ts[i].date_created,
                    content,
                    transaction_id: ts[i].id_text.clone(),
                    comment_id: ts[i].comments[j].id_text.clone(),
                };
                let ghost gc = gview_comment(c);
                gen.push(c);
                proof {
                    assert(gd_of(gen@, inl@, act@).general =~~= pre_gen.push(gc));
                    assert(gd_of(gen@, inl@, act@).inline =~~= pre_gd.inline);
                    assert(gd_of(gen@, inl@, act@).actions =~~= pre_gd.actions);
                }
                j = j + 1;
            }
            proof {
                let full = spec_apply_tx(
                    ts@[i as int],
                    gnames,
                    gres,
                    include_done,
                    pre_gd,
                    ridx as int,
                );
                assert(gd_of(gen@, inl@, act@) =~~= full.0);
            }
        } else if is_ty(&ts[i], "inline") {
            let ghost pre_gd = gd_of(gen@, inl@, act@);
            let ghost ridx0 = ridx as int;
            let ghost f = ts@[i as int].fields@;
            let line64 = field_line(&ts[i].fields);
            let line32: u32 = #[verifier::truncate] (line64 as u32);
            let len64 = field_length(&ts[i].fields);
            let len32: u32 = #[verifier::truncate] (len64 as u32);
            let path = field_path(&ts[i].fields);
            let diffid = field_diff_id(&ts[i].fields);
            let done = field_done(&ts[i].fields);
            let cs_len = ts[i].comments.len();
            let mut j: usize = 0;
            while j < cs_len
                invariant
                    0 <= j <= cs_len,
                    i < n,
                    n == ts@.len(),
                    rn == resolutions@.len(),
                    gres == res_view(resolutions@),
                    gres.len() == rn,
                    ridx <= rn,
                    cs_len == ts@[i as int].comments@.len(),
                    gphid == phid_of(ts@[i as int]),
                    gauthor == author_of(gnames, gphid),
                    gdate == timestamp_text(ts@[i as int].date_created),
                    gtxid == ts@[i as int].id_text@,
                    dts == ts@[i as int].date_created,
                    author@ == gauthor,
                    phid@ == gphid,
                    date@ == gdate,
                    f == ts@[i as int].fields@,
                    line32 == line_of(f) as u32,
                    len32 == length_of(f) as u32,
                    path@ == path_of(f),
                    diffid@ == inline_diff_id_of(f),
                    done == done_of(f),
                    gd_of(gen@, inl@, act@).general == pre_gd.general,
                    gd_of(gen@, inl@, act@).actions == pre_gd.actions,
                    spec_inline_fold(
                        ts@[i as int].comments@,
                        0,
                        f,
                        gres,
                        ridx0,
                        include_done,
                        gauthor,
                        gphid,
                        gdate,
                        dts,
                        gtxid,
                        pre_gd.inline,
                    ) == spec_inline_fold(
                        ts@[i as int].comments@,
                        j as int,
                        f,
                        gres,
                        ridx as int,
                        include_done,
                        gauthor,
                        gphid,
                        gdate,
                        dts,
                        gtxid,
                        gd_of(gen@, inl@, act@).inline,
                    ),
                decreases cs_len - j,
            {
                let ghost pre_inl = gd_of(gen@, inl@, act@).inline;
                let ghost pre_ridx = ridx as int;
                let content: String = if raw_is_empty(&ts[i].comments[j]) {
                    if line32 > 0 && !path.as_str().is_empty() {
                        let taken: Option<String> = if ridx < rn {
                            let got = match &resolutions[ridx] {
                                Some(s) => Some(s.clone()),
                                None => None,
                            };
                            ridx = ridx + 1;
                            got
                        } else {
                            None
                        };
                        match taken {
                            Some(s) => s,
                            None => {
                                let uv = str_chars(
                                    "*[Empty inline comment - likely contains a code suggestion that cannot be extracted via API]*",
                                );
                                chars_to_string(&uv)
                            },
                        }
                    } else {
                        let uv = str_chars(
                            "*[Empty inline comment - likely contains a code suggestion that cannot be extracted via API]*",
                        );
                        chars_to_string(&uv)
                    }
                } else {
                    match &ts[i].comments[j].raw {
                        Some(s) => s.clone(),
                        None => String::new(),
                    }
                };
                proof {
                    let cr = inline_content(ts@[i as int].comments@[j as int], f, gres, pre_ridx);
                    if 0 <= pre_ridx < gres.len() {
                        assert(gres[pre_ridx] == opt_string_view(resolutions@[pre_ridx]));
                    }
                    assert(content@ == cr.0 && ridx as int == cr.1);
                }
                if !(done && !include_done) {
                    let c = InlineComment {
                        author: author.clone(),
                        author_phid: phid.clone(),
                        date: date.clone(),
                        date_timestamp: ts[i].date_created,
                        content,
                        file_path: path.clone(),
                        line_number: line32,
                        line_length: len32,
                        diff_id: diffid.clone(),
                        is_done: done,
                        transaction_id: ts[i].id_text.clone(),
                        comment_id: ts[i].comments[j].id_text.clone(),
                    };
                    let ghost gc = gview_inline(c);
                    inl.push(c);
                    proof {
                        assert(gd_of(gen@, inl@, act@).inline =~~= pre_inl.push(gc));
                        assert(gd_of(gen@, inl@, act@).general =~~= pre_gd.general);
                        assert(gd_of(gen@, inl@, act@).actions =~~= pre_gd.actions);
                    }
                }
                j = j + 1;
            }
            proof {
                let full = spec_apply_tx(
                    ts@[i as int],
                    gnames,
                    gres,
                    include_done,
                    pre_gd,
                    ridx0,
                );
                assert(gd_of(gen@, inl@, act@) =~~= full.0);
                assert(ridx as int == full.1);
            }
        } else {
            let action_name: Option<String> = action_ty_name(&ts[i]);
            match action_name {
                Some(aname) => {
                    let ghost pre_gd = gd_of(gen@, inl@, act@);
                    let cs_len = ts[i].comments.len();
                    let mut texts: Vec<String> = Vec::new();
                    let mut j: usize = 0;
                    proof {
                        assert(texts.deep_view() =~~= Seq::<Seq<char>>::empty());
                    }
                    while j < cs_len
                        invariant
                            0 <= j <= cs_len,
                            i < n,
                            n == ts@.len(),
                            cs_len == ts@[i as int].comments@.len(),
                            spec_action_texts(ts@[i as int].comments@, 0, Seq::empty())
                                == spec_action_texts(
                                ts@[i as int].comments@,
                                j as int,
                                texts.deep_view(),
                            ),
                        decreases cs_len - j,
                    {
                        let ghost pre_t = texts.deep_view();
                        if !raw_is_empty(&ts[i].comments[j]) {
                            let s: String = match &ts[i].comments[j].raw {
                                Some(s) => s.clone(),
                                None => String::new(),
                            };
                            let ghost gs = s@;
                            texts.push(s);
                            proof {
                                assert(texts.deep_view() =~~= pre_t.push(gs));
                            }
                        }
                        j = j + 1;
                    }
                    let a = ReviewAction {
                        author: author.clone(),
                        author_phid: phid.clone(),
                        date: date.clone(),
                        action: aname,
                        comments: texts,
                        transaction_id: ts[i].id_text.clone(),
                    };
                    let ghost ga = gview_action(a);
                    act.push(a);
                    proof {
                        assert(gd_of(gen@, inl@, act@).actions =~~= pre_gd.actions.push(ga));
                        assert(gd_of(gen@, inl@, act@).general =~~= pre_gd.general);
                        assert(gd_of(gen@, inl@, act@).inline =~~= pre_gd.inline);
                        let full = spec_apply_tx(
                            ts@[i as int],
                            gnames,
                            gres,
                            include_done,
                            pre_gd,
                            ridx as int,
                        );
                        assert(gd_of(gen@, inl@, act@) =~~= full.0);
                    }
                },
                None => {
                    proof {
                        assert(!is_action_ty(ty_of(ts@[i as int])));
                        assert(ty_of(ts@[i as int]) != "comment"@);
                        assert(ty_of(ts@[i as int]) != "inline"@);
                    }
                },
            }
        }
        i = i + 1;
    }
    proof {
        assert(spec_extract_from(
            ts@,
            gnames,
            gres,
            include_done,
            n as int,
            gd_of(gen@, inl@, act@),
            ridx as int,
        ) == gd_of(gen@, inl@, act@));
    }
    CommentsData { general_comments: gen, inline_comments: inl, review_actions: act }
}

/// The action kind of a review transaction, when it is one.
fn action_ty_name(t: &Transaction) -> (r: Option<String>)
    ensures
        match r {
            Some(s) => is_action_ty(ty_of(*t)) && s@ == ty_of(*t),
            None => !is_action_ty(ty_of(*t)),
        },
{
    if is_ty(t, "request-changes") || is_ty(t, "accept") || is_ty(t, "reject") || is_ty(
        t,
        "request-review",
    ) {
        match &t.transaction_type {
            Some(s) => Some(s.clone()),
            None => {
                proof {
                    reveal_strlit("unknown");
                    reveal_strlit("request-changes");
                    reveal_strlit("accept");
                    reveal_strlit("reject");
                    reveal_strlit("request-review");
                    assert(ty_of(*t) == "unknown"@);
                    assert("unknown"@.len() == 7);
                    assert("request-changes"@.len() == 15);
                    assert("accept"@.len() == 6);
                    assert("reject"@.len() == 6);
                    assert("request-review"@.len() == 14);
                    assert("unknown"@[0] == 'u' && "accept"@[0] == 'a' && "reject"@[0] == 'r');
                    assert(false);
                }
                None
            },
        }
    } else {
        None
    }
}

} // verus!
