//! Interpretation of the review system's API responses: revision lookup,
//! transaction listing, latest-diff search, and user display names, all
//! read from parsed JSON. The HTTP requests themselves stay outside the
//! library; these functions take the response bodies.
use vstd::prelude::*;

verus! {

use crate::text::{str_chars, chars_to_string, dec_str, spec_i64_str, i64_to_chars, u64_to_chars};
use crate::json::{
    Json,
    JVal,
    spec_parse_json,
    spec_obj_get,
    parse_json,
    obj_get,
    json_clone,
    j_view,
};

/// How an API call's body failed, when it did.
#[derive(Debug)]
pub enum ApiError {
    /// The body was not the JSON shape the call promises.
    Malformed,
    /// The service reported an error code with explanatory text.
    Api(String, String),
    /// The body carried no result payload.
    NoResultData,
    /// The result payload named no revision.
    NoRevisionFound,
}

/// An event on a revision, as the transaction listing reports it.
pub struct Transaction {
    pub transaction_type: Option<String>,
    pub author_phid: Option<String>,
    pub date_created: u64,
    pub comments: Vec<CommentEntry>,
    pub fields: Json,
    pub id_text: String,
}

/// One comment attached to a transaction.
pub struct CommentEntry {
    pub raw: Option<String>,
    pub id_text: String,
}

/// A field that may be absent, `null`, or a string — and nothing else.
pub open spec fn opt_str_ok(ms: Seq<(Seq<char>, JVal)>, key: Seq<char>) -> bool {
    match spec_obj_get(ms, key) {
        None => true,
        Some(JVal::Null) => true,
        Some(JVal::Str(_)) => true,
        _ => false,
    }
}

/// The string under `key`, when one is there.
pub open spec fn opt_str(ms: Seq<(Seq<char>, JVal)>, key: Seq<char>) -> Option<Seq<char>> {
    match spec_obj_get(ms, key) {
        Some(JVal::Str(t)) => Some(t),
        _ => None,
    }
}

/// An optional string as its model.
pub open spec fn opt_string_view(o: Option<String>) -> Option<Seq<char>> {
    match o {
        Some(s) => Some(s@),
        None => None,
    }
}

/// The rendering of a transaction or comment identifier: scalars write as
/// JSON text; anything else writes as nothing.
pub open spec fn id_text_of(v: JVal) -> Seq<char> {
    match v {
        JVal::Null => "null"@,
        JVal::Bool(b) => if b {
            "true"@
        } else {
            "false"@
        },
        JVal::Int(i) => spec_i64_str(i as int),
        JVal::Str(t) => seq!['"'] + t + seq!['"'],
        _ => Seq::empty(),
    }
}

/// Writes an identifier value; mirrors `id_text_of`.
pub fn id_text(j: &Json) -> (r: String)
    ensures
        r@ == id_text_of(j@),
{
    match j {
        Json::Null => {
            let v = str_chars("null");
            chars_to_string(&v)
        },
        Json::Bool(b) => {
            if *b {
                let v = str_chars("true");
                chars_to_string(&v)
            } else {
                let v = str_chars("false");
                chars_to_string(&v)
            }
        },
        Json::Int(i) => chars_to_string(&i64_to_chars(*i)),
        Json::Str(t) => {
            let mut out: Vec<char> = Vec::new();
            out.push('"');
            let mut mid = crate::text::sub_vec(t, 0, t.len());
            let ghost gm = mid@;
            out.append(&mut mid);
            out.push('"');
            proof {
                assert(gm =~= t@);
                assert(out@ =~= seq!['"'] + t@ + seq!['"']);
            }
            chars_to_string(&out)
        },
        _ => {
            let v: Vec<char> = Vec::new();
            proof {
                assert(v@ =~= Seq::<char>::empty());
            }
            chars_to_string(&v)
        },
    }
}

/// Checks that a field is absent, `null`, or a string; hands the string
/// out when one is there.
fn check_opt_str(ms: &Vec<(Vec<char>, Json)>, key: &str) -> (r: Result<Option<String>, ()>)
    ensures
        r matches Ok(o) ==> opt_str_ok(crate::json::obj_view(ms@), key@) && opt_string_view(o)
            == opt_str(crate::json::obj_view(ms@), key@),
        r is Err ==> !opt_str_ok(crate::json::obj_view(ms@), key@),
{
    let kv = str_chars(key);
    match obj_get(ms, &kv) {
        None => Ok(None),
        Some(v) => match v {
            Json::Null => Ok(None),
            Json::Str(t) => Ok(Some(chars_to_string(t))),
            _ => Err(()),
        },
    }
}

/// How the service's outer envelope reads: well-formed error fields, and
/// either a reported error or a result object.
pub open spec fn envelope_ok(ms: Seq<(Seq<char>, JVal)>) -> bool {
    opt_str_ok(ms, "error_code"@) && opt_str_ok(ms, "error_info"@)
}

/// The reported error, when the envelope carries one: the code with its
/// explanatory text, an absent text reading as empty.
pub open spec fn envelope_error(ms: Seq<(Seq<char>, JVal)>) -> Option<(Seq<char>, Seq<char>)> {
    match opt_str(ms, "error_code"@) {
        Some(c) => Some(
            (
                c,
                match opt_str(ms, "error_info"@) {
                    Some(i) => i,
                    None => Seq::empty(),
                },
            ),
        ),
        None => None,
    }
}

/// What a revision search yields: the outcome of reading its body.
pub enum RevisionOutcome {
    Malformed,
    Api(Seq<char>, Seq<char>),
    NoResult,
    NoData,
    Found(Seq<char>),
}

/// Every element of a revision listing is well-formed.
pub open spec fn all_rev_ok(ds: Seq<JVal>) -> bool {
    forall|i: int| 0 <= i < ds.len() ==> rev_elem_ok(#[trigger] ds[i])
}

/// Every element of a comment listing is well-formed.
pub open spec fn all_comments_ok(cs: Seq<JVal>) -> bool {
    forall|i: int| 0 <= i < cs.len() ==> comment_ok(#[trigger] cs[i])
}

/// Every element of a transaction listing is well-formed.
pub open spec fn all_tx_ok(ds: Seq<JVal>) -> bool {
    forall|i: int| 0 <= i < ds.len() ==> tx_ok(#[trigger] ds[i])
}

/// One element of the revision listing has a string `phid`.
pub open spec fn rev_elem_ok(v: JVal) -> bool {
    match v {
        JVal::Obj(em) => spec_obj_get(em, "phid"@) matches Some(JVal::Str(_)),
        _ => false,
    }
}

/// The `phid` of one revision element.
pub open spec fn rev_elem_phid(v: JVal) -> Seq<char> {
    match v {
        JVal::Obj(em) => match spec_obj_get(em, "phid"@) {
            Some(JVal::Str(p)) => p,
            _ => Seq::empty(),
        },
        _ => Seq::empty(),
    }
}

/// Reading a revision-search body: a parse or shape failure is malformed;
/// a reported error wins next; then a missing result, then an empty
/// listing; otherwise the first revision's identifier is found.
pub open spec fn spec_revision_outcome(s: Seq<char>) -> RevisionOutcome {
    match spec_parse_json(s) {
        Some(JVal::Obj(ms)) => {
            if !envelope_ok(ms) {
                RevisionOutcome::Malformed
            } else {
                match spec_obj_get(ms, "result"@) {
                    None => result_outcome_none(ms),
                    Some(JVal::Null) => result_outcome_none(ms),
                    Some(JVal::Obj(rm)) => match spec_obj_get(rm, "data"@) {
                        Some(JVal::Arr(ds)) => {
                            if !all_rev_ok(ds) {
                                RevisionOutcome::Malformed
                            } else {
                                match envelope_error(ms) {
                                    Some(ci) => RevisionOutcome::Api(ci.0, ci.1),
                                    None => if ds.len() == 0 {
                                        RevisionOutcome::NoData
                                    } else {
                                        RevisionOutcome::Found(rev_elem_phid(ds[0]))
                                    },
                                }
                            }
                        },
                        _ => RevisionOutcome::Malformed,
                    },
                    Some(_) => RevisionOutcome::Malformed,
                }
            }
        },
        Some(_) => RevisionOutcome::Malformed,
        None => RevisionOutcome::Malformed,
    }
}

/// The outcome when the envelope has no result object.
pub open spec fn result_outcome_none(ms: Seq<(Seq<char>, JVal)>) -> RevisionOutcome {
    match envelope_error(ms) {
        Some(ci) => RevisionOutcome::Api(ci.0, ci.1),
        None => RevisionOutcome::NoResult,
    }
}

/// Every element of the revision listing is well-formed.
fn rev_elems_ok(ds: &Vec<Json>) -> (r: bool)
    ensures
        r == all_rev_ok(crate::json::arr_view(ds@)),
{
    let pkey = str_chars("phid");
    proof {
        crate::json::lemma_arr_view(ds@);
    }
    let mut k: usize = 0;
    while k < ds.len()
        invariant
            0 <= k <= ds@.len(),
            pkey@ == "phid"@,
            crate::json::arr_view(ds@).len() == ds@.len(),
            forall|w: int|
                0 <= w < ds@.len() ==> crate::json::arr_view(ds@)[w] == j_view(#[trigger] ds@[w]),
            forall|w: int| 0 <= w < k ==> rev_elem_ok(#[trigger] crate::json::arr_view(ds@)[w]),
        decreases ds@.len() - k,
    {
        let ok = match &ds[k] {
            Json::Obj(em) => {
                match obj_get(em, &pkey) {
                    Some(pv) => match pv {
                        Json::Str(_) => true,
                        _ => false,
                    },
                    None => false,
                }
            },
            _ => false,
        };
        if !ok {
            proof {
                assert(!rev_elem_ok(crate::json::arr_view(ds@)[k as int]));
                assert(!all_rev_ok(crate::json::arr_view(ds@)));
            }
            return false;
        }
        k = k + 1;
    }
    true
}

/// Reads a revision-search response body down to the revision's
/// identifier, reporting exactly how it fell short when it did.
pub fn phid_from_revision_response(body: &str) -> (r: Result<String, ApiError>)
    ensures
        match spec_revision_outcome(body@) {
            RevisionOutcome::Malformed => r matches Err(e) && e is Malformed,
            RevisionOutcome::Api(c, i) => r matches Err(e) && (e matches ApiError::Api(ec, ei)
                && ec@ == c && ei@ == i),
            RevisionOutcome::NoResult => r matches Err(e) && e is NoResultData,
            RevisionOutcome::NoData => r matches Err(e) && e is NoRevisionFound,
            RevisionOutcome::Found(p) => r matches Ok(s) && s@ == p,
        },
{
    let bv = str_chars(body);
    let doc = match parse_json(&bv) {
        Some(d) => d,
        None => {
            return Err(ApiError::Malformed);
        },
    };
    let ms = match &doc {
        Json::Obj(ms) => ms,
        _ => {
            return Err(ApiError::Malformed);
        },
    };
    let code = match check_opt_str(ms, "error_code") {
        Ok(o) => o,
        Err(()) => {
            return Err(ApiError::Malformed);
        },
    };
    let info = match check_opt_str(ms, "error_info") {
        Ok(o) => o,
        Err(()) => {
            return Err(ApiError::Malformed);
        },
    };
    let rkey = str_chars("result");
    let result = obj_get(ms, &rkey);
    match result {
        None => {
            match code {
                Some(c) => Err(
                    ApiError::Api(
                        c,
                        match info {
                            Some(i) => i,
                            None => chars_to_string(&Vec::new()),
                        },
                    ),
                ),
                None => Err(ApiError::NoResultData),
            }
        },
        Some(rv) => {
            match rv {
                Json::Null => {
                    match code {
                        Some(c) => Err(
                            ApiError::Api(
                                c,
                                match info {
                                    Some(i) => i,
                                    None => chars_to_string(&Vec::new()),
                                },
                            ),
                        ),
                        None => Err(ApiError::NoResultData),
                    }
                },
                Json::Obj(rm) => {
                    let dkey = str_chars("data");
                    match obj_get(rm, &dkey) {
                        Some(dv) => match dv {
                            Json::Arr(ds) => {
                                let pkey = str_chars("phid");
                                if !rev_elems_ok(ds) {
                                    return Err(ApiError::Malformed);
                                }
                                proof {
                                    crate::json::lemma_arr_view(ds@);
                                    if ds@.len() > 0 {
                                        assert(rev_elem_ok(crate::json::arr_view(ds@)[0]));
                                    }
                                }
                                match code {
                                    Some(c) => Err(
                                        ApiError::Api(
                                            c,
                                            match info {
                                                Some(i) => i,
                                                None => chars_to_string(&Vec::new()),
                                            },
                                        ),
                                    ),
                                    None => {
                                        if ds.len() == 0 {
                                            Err(ApiError::NoRevisionFound)
                                        } else {
                                            match &ds[0] {
                                                Json::Obj(em) => {
                                                    match obj_get(em, &pkey) {
                                                        Some(pv) => match pv {
                                                            Json::Str(t) => Ok(
                                                                chars_to_string(t),
                                                            ),
                                                            _ => Err(ApiError::Malformed),
                                                        },
                                                        None => Err(ApiError::Malformed),
                                                    }
                                                },
                                                _ => Err(ApiError::Malformed),
                                            }
                                        }
                                    },
                                }
                            },
                            _ => Err(ApiError::Malformed),
                        },
                        None => Err(ApiError::Malformed),
                    }
                },
                _ => Err(ApiError::Malformed),
            }
        },
    }
}

/// One comment of a transaction is well-formed: a `content` object whose
/// `raw` is absent, `null`, or a string, and an identifier of any value.
pub open spec fn comment_ok(v: JVal) -> bool {
    match v {
        JVal::Obj(cm) => {
            &&& (match spec_obj_get(cm, "content"@) {
                Some(JVal::Obj(km)) => opt_str_ok(km, "raw"@),
                _ => false,
            })
            &&& spec_obj_get(cm, "id"@) is Some
        },
        _ => false,
    }
}

/// One transaction element is well-formed.
pub open spec fn tx_ok(v: JVal) -> bool {
    match v {
        JVal::Obj(tm) => {
            &&& opt_str_ok(tm, "type"@)
            &&& opt_str_ok(tm, "authorPHID"@)
            &&& (match spec_obj_get(tm, "dateCreated"@) {
                Some(JVal::Int(d)) => d >= 0,
                _ => false,
            })
            &&& (match spec_obj_get(tm, "comments"@) {
                Some(JVal::Arr(cs)) => all_comments_ok(cs),
                _ => false,
            })
            &&& spec_obj_get(tm, "id"@) is Some
        },
        _ => false,
    }
}

/// A transaction's creation time.
pub open spec fn date_of(tm: Seq<(Seq<char>, JVal)>) -> int {
    match spec_obj_get(tm, "dateCreated"@) {
        Some(JVal::Int(d)) => d as int,
        _ => 0,
    }
}

/// A record's identifier value, reading absent as `null`.
pub open spec fn id_of(tm: Seq<(Seq<char>, JVal)>) -> JVal {
    match spec_obj_get(tm, "id"@) {
        Some(x) => x,
        None => JVal::Null,
    }
}

/// A transaction's extra field payload, reading absent as `null`.
pub open spec fn fields_of(tm: Seq<(Seq<char>, JVal)>) -> JVal {
    match spec_obj_get(tm, "fields"@) {
        Some(x) => x,
        None => JVal::Null,
    }
}

/// The built comment record reads exactly the element's fields.
pub open spec fn cm_matches(c: CommentEntry, v: JVal) -> bool {
    match v {
        JVal::Obj(cm) => {
            &&& opt_string_view(c.raw) == (match spec_obj_get(cm, "content"@) {
                Some(JVal::Obj(km)) => opt_str(km, "raw"@),
                _ => None,
            })
            &&& c.id_text@ == id_text_of(id_of(cm))
        },
        _ => false,
    }
}

/// The built transaction record reads exactly the element's fields.
pub open spec fn tx_matches(t: Transaction, v: JVal) -> bool {
    match v {
        JVal::Obj(tm) => {
            &&& opt_string_view(t.transaction_type) == opt_str(tm, "type"@)
            &&& opt_string_view(t.author_phid) == opt_str(tm, "authorPHID"@)
            &&& t.date_created as int == date_of(tm)
            &&& t.fields@ == fields_of(tm)
            &&& t.id_text@ == id_text_of(id_of(tm))
            &&& (match spec_obj_get(tm, "comments"@) {
                Some(JVal::Arr(cs)) => t.comments@.len() == cs.len() && (forall|j: int|
                    0 <= j < cs.len() ==> cm_matches(t.comments@[j], #[trigger] cs[j])),
                _ => false,
            })
        },
        _ => false,
    }
}

/// What a transaction search yields: the outcome of reading its body.
pub enum TransactionsOutcome {
    Malformed,
    Api(Seq<char>, Seq<char>),
    NoResult,
    Found(Seq<JVal>),
}

/// Reading a transaction-search body.
pub open spec fn spec_transactions_outcome(s: Seq<char>) -> TransactionsOutcome {
    match spec_parse_json(s) {
        Some(JVal::Obj(ms)) => {
            if !envelope_ok(ms) {
                TransactionsOutcome::Malformed
            } else {
                match spec_obj_get(ms, "result"@) {
                    None => tx_result_none(ms),
                    Some(JVal::Null) => tx_result_none(ms),
                    Some(JVal::Obj(rm)) => match spec_obj_get(rm, "data"@) {
                        Some(JVal::Arr(ds)) => {
                            if !all_tx_ok(ds) {
                                TransactionsOutcome::Malformed
                            } else {
                                match envelope_error(ms) {
                                    Some(ci) => TransactionsOutcome::Api(ci.0, ci.1),
                                    None => TransactionsOutcome::Found(ds),
                                }
                            }
                        },
                        _ => TransactionsOutcome::Malformed,
                    },
                    Some(_) => TransactionsOutcome::Malformed,
                }
            }
        },
        Some(_) => TransactionsOutcome::Malformed,
        None => TransactionsOutcome::Malformed,
    }
}

/// The outcome when the envelope has no result object.
pub open spec fn tx_result_none(ms: Seq<(Seq<char>, JVal)>) -> TransactionsOutcome {
    match envelope_error(ms) {
        Some(ci) => TransactionsOutcome::Api(ci.0, ci.1),
        None => TransactionsOutcome::NoResult,
    }
}

/// Every comment element is well-formed.
fn comments_ok(cs: &Vec<Json>) -> (r: bool)
    ensures
        r == all_comments_ok(crate::json::arr_view(cs@)),
{
    proof {
        crate::json::lemma_arr_view(cs@);
    }
    let mut k: usize = 0;
    while k < cs.len()
        invariant
            0 <= k <= cs@.len(),
            crate::json::arr_view(cs@).len() == cs@.len(),
            forall|w: int|
                0 <= w < cs@.len() ==> crate::json::arr_view(cs@)[w] == j_view(#[trigger] cs@[w]),
            forall|w: int| 0 <= w < k ==> comment_ok(#[trigger] crate::json::arr_view(cs@)[w]),
        decreases cs@.len() - k,
    {
        let ok = comment_elem_ok(&cs[k]);
        if !ok {
            proof {
                assert(!comment_ok(crate::json::arr_view(cs@)[k as int]));
                assert(!all_comments_ok(crate::json::arr_view(cs@)));
            }
            return false;
        }
        k = k + 1;
    }
    true
}

fn comment_elem_ok(c: &Json) -> (r: bool)
    ensures
        r == comment_ok(c@),
{
    let ckey = str_chars("content");
    let ikey = str_chars("id");
    match c {
        Json::Obj(cm) => {
            let content_ok = match obj_get(cm, &ckey) {
                Some(cv) => match cv {
                    Json::Obj(km) => {
                        match check_opt_str(km, "raw") {
                            Ok(_) => true,
                            Err(()) => false,
                        }
                    },
                    _ => false,
                },
                None => false,
            };
            content_ok && obj_get(cm, &ikey).is_some()
        },
        _ => false,
    }
}

fn tx_elem_ok(t: &Json) -> (r: bool)
    ensures
        r == tx_ok(t@),
{
    let dkey = str_chars("dateCreated");
    let ckey = str_chars("comments");
    let ikey = str_chars("id");
    match t {
        Json::Obj(tm) => {
            let a = match check_opt_str(tm, "type") {
                Ok(_) => true,
                Err(()) => false,
            };
            let b = match check_opt_str(tm, "authorPHID") {
                Ok(_) => true,
                Err(()) => false,
            };
            let d = match obj_get(tm, &dkey) {
                Some(dv) => match dv {
                    Json::Int(x) => *x >= 0,
                    _ => false,
                },
                None => false,
            };
            let cs_ok = match obj_get(tm, &ckey) {
                Some(cv) => match cv {
                    Json::Arr(cs) => comments_ok(cs),
                    _ => false,
                },
                None => false,
            };
            let has_id = obj_get(tm, &ikey).is_some();
            proof {
                let gm = crate::json::obj_view(tm@);
                assert(a == opt_str_ok(gm, "type"@));
                assert(b == opt_str_ok(gm, "authorPHID"@));
                assert(d == (match spec_obj_get(gm, "dateCreated"@) {
                    Some(JVal::Int(x)) => x >= 0,
                    _ => false,
                }));
                assert(cs_ok == (match spec_obj_get(gm, "comments"@) {
                    Some(JVal::Arr(cs)) => all_comments_ok(cs),
                    _ => false,
                }));
                assert(has_id == (spec_obj_get(gm, "id"@) is Some));
            }
            a && b && d && cs_ok && has_id
        },
        _ => false,
    }
}

/// Every transaction element is well-formed.
fn txs_ok(ds: &Vec<Json>) -> (r: bool)
    ensures
        r == all_tx_ok(crate::json::arr_view(ds@)),
{
    proof {
        crate::json::lemma_arr_view(ds@);
    }
    let mut k: usize = 0;
    while k < ds.len()
        invariant
            0 <= k <= ds@.len(),
            crate::json::arr_view(ds@).len() == ds@.len(),
            forall|w: int|
                0 <= w < ds@.len() ==> crate::json::arr_view(ds@)[w] == j_view(#[trigger] ds@[w]),
            forall|w: int| 0 <= w < k ==> tx_ok(#[trigger] crate::json::arr_view(ds@)[w]),
        decreases ds@.len() - k,
    {
        let ok = tx_elem_ok(&ds[k]);
        if !ok {
            proof {
                assert(!tx_ok(crate::json::arr_view(ds@)[k as int]));
                assert(!all_tx_ok(crate::json::arr_view(ds@)));
            }
            return false;
        }
        k = k + 1;
    }
    true
}

/// Builds one comment record from a well-formed element.
fn build_comment(c: &Json) -> (r: CommentEntry)
    requires
        comment_ok(c@),
    ensures
        cm_matches(r, c@),
{
    let ckey = str_chars("content");
    let ikey = str_chars("id");
    match c {
        Json::Obj(cm) => {
            let raw = match obj_get(cm, &ckey) {
                Some(cv) => match cv {
                    Json::Obj(km) => {
                        match check_opt_str(km, "raw") {
                            Ok(o) => o,
                            Err(()) => None,
                        }
                    },
                    _ => None,
                },
                None => None,
            };
            let idt = match obj_get(cm, &ikey) {
                Some(iv) => id_text(iv),
                None => id_text(&Json::Null),
            };
            CommentEntry { raw, id_text: idt }
        },
        _ => {
            proof {
                assert(false);
            }
            CommentEntry { raw: None, id_text: id_text(&Json::Null) }
        },
    }
}

/// Builds one transaction record from a well-formed element.
fn build_tx(t: &Json) -> (r: Transaction)
    requires
        tx_ok(t@),
    ensures
        tx_matches(r, t@),
{
    let dkey = str_chars("dateCreated");
    let ckey = str_chars("comments");
    let ikey = str_chars("id");
    let fkey = str_chars("fields");
    match t {
        Json::Obj(tm) => {
            let ty = match check_opt_str(tm, "type") {
                Ok(o) => o,
                Err(()) => None,
            };
            let au = match check_opt_str(tm, "authorPHID") {
                Ok(o) => o,
                Err(()) => None,
            };
            let dc: u64 = match obj_get(tm, &dkey) {
                Some(dv) => match dv {
                    Json::Int(x) => {
                        if *x >= 0 {
                            *x as u64
                        } else {
                            0
                        }
                    },
                    _ => 0,
                },
                None => 0,
            };
            let fields = match obj_get(tm, &fkey) {
                Some(fv) => json_clone(fv),
                None => Json::Null,
            };
            let idt = match obj_get(tm, &ikey) {
                Some(iv) => id_text(iv),
                None => id_text(&Json::Null),
            };
            let mut comments: Vec<CommentEntry> = Vec::new();
            match obj_get(tm, &ckey) {
                Some(cv) => {
                    match cv {
                        Json::Arr(cs) => {
                            proof {
                                crate::json::lemma_arr_view(cs@);
                                assert(spec_obj_get(crate::json::obj_view(tm@), "comments"@)
                                    == Some(JVal::Arr(crate::json::arr_view(cs@))));
                            }
                            let mut k: usize = 0;
                            while k < cs.len()
                                invariant
                                    0 <= k <= cs@.len(),
                                    crate::json::arr_view(cs@).len() == cs@.len(),
                                    forall|w: int|
                                        0 <= w < cs@.len() ==> crate::json::arr_view(cs@)[w]
                                            == j_view(#[trigger] cs@[w]),
                                    all_comments_ok(crate::json::arr_view(cs@)),
                                    comments@.len() == k,
                                    forall|w: int|
                                        0 <= w < k ==> cm_matches(
                                            #[trigger] comments@[w],
                                            crate::json::arr_view(cs@)[w],
                                        ),
                                decreases cs@.len() - k,
                            {
                                proof {
                                    assert(comment_ok(crate::json::arr_view(cs@)[k as int]));
                                }
                                let ce = build_comment(&cs[k]);
                                comments.push(ce);
                                k = k + 1;
                            }
                        },
                        _ => {
                            proof {
                                assert(false);
                            }
                        },
                    }
                },
                None => {
                    proof {
                        assert(false);
                    }
                },
            }
            Transaction {
                transaction_type: ty,
                author_phid: au,
                date_created: dc,
                comments,
                fields,
                id_text: idt,
            }
        },
        _ => {
            proof {
                assert(false);
            }
            Transaction {
                transaction_type: None,
                author_phid: None,
                date_created: 0,
                comments: Vec::new(),
                fields: Json::Null,
                id_text: id_text(&Json::Null),
            }
        },
    }
}

/// Reads a transaction-search response body into transaction records,
/// reporting exactly how it fell short when it did.
pub fn transactions_from_response(body: &str) -> (r: Result<Vec<Transaction>, ApiError>)
    ensures
        match spec_transactions_outcome(body@) {
            TransactionsOutcome::Malformed => r matches Err(e) && e is Malformed,
            TransactionsOutcome::Api(c, i) => r matches Err(e) && (e matches ApiError::Api(
                ec,
                ei,
            ) && ec@ == c && ei@ == i),
            TransactionsOutcome::NoResult => r matches Err(e) && e is NoResultData,
            TransactionsOutcome::Found(ds) => r matches Ok(ts) && ts@.len() == ds.len() && (forall|
                i: int,
            |
                0 <= i < ds.len() ==> tx_matches(ts@[i], #[trigger] ds[i])),
        },
{
    let bv = str_chars(body);
    let doc = match parse_json(&bv) {
        Some(d) => d,
        None => {
            return Err(ApiError::Malformed);
        },
    };
    let ms = match &doc {
        Json::Obj(ms) => ms,
        _ => {
            return Err(ApiError::Malformed);
        },
    };
    let code = match check_opt_str(ms, "error_code") {
        Ok(o) => o,
        Err(()) => {
            return Err(ApiError::Malformed);
        },
    };
    let info = match check_opt_str(ms, "error_info") {
        Ok(o) => o,
        Err(()) => {
            return Err(ApiError::Malformed);
        },
    };
    let rkey = str_chars("result");
    match obj_get(ms, &rkey) {
        None => {
            match code {
                Some(c) => Err(
                    ApiError::Api(
                        c,
                        match info {
                            Some(i) => i,
                            None => chars_to_string(&Vec::new()),
                        },
                    ),
                ),
                None => Err(ApiError::NoResultData),
            }
        },
        Some(rv) => {
            match rv {
                Json::Null => {
                    match code {
                        Some(c) => Err(
                            ApiError::Api(
                                c,
                                match info {
                                    Some(i) => i,
                                    None => chars_to_string(&Vec::new()),
                                },
                            ),
                        ),
                        None => Err(ApiError::NoResultData),
                    }
                },
                Json::Obj(rm) => {
                    let dkey = str_chars("data");
                    match obj_get(rm, &dkey) {
                        Some(dv) => match dv {
                            Json::Arr(ds) => {
                                if !txs_ok(ds) {
                                    return Err(ApiError::Malformed);
                                }
                                match code {
                                    Some(c) => Err(
                                        ApiError::Api(
                                            c,
                                            match info {
                                                Some(i) => i,
                                                None => chars_to_string(&Vec::new()),
                                            },
                                        ),
                                    ),
                                    None => {
                                        proof {
                                            crate::json::lemma_arr_view(ds@);
                                        }
                                        let mut out: Vec<Transaction> = Vec::new();
                                        let mut k: usize = 0;
                                        while k < ds.len()
                                            invariant
                                                0 <= k <= ds@.len(),
                                                crate::json::arr_view(ds@).len() == ds@.len(),
                                                forall|w: int|
                                                    0 <= w < ds@.len() ==> crate::json::arr_view(
                                                        ds@,
                                                    )[w] == j_view(#[trigger] ds@[w]),
                                                all_tx_ok(crate::json::arr_view(ds@)),
                                                out@.len() == k,
                                                forall|w: int|
                                                    0 <= w < k ==> tx_matches(
                                                        #[trigger] out@[w],
                                                        crate::json::arr_view(ds@)[w],
                                                    ),
                                            decreases ds@.len() - k,
                                        {
                                            proof {
                                                assert(tx_ok(
                                                    crate::json::arr_view(ds@)[k as int],
                                                ));
                                            }
                                            let tx = build_tx(&ds[k]);
                                            out.push(tx);
                                            k = k + 1;
                                        }
                                        Ok(out)
                                    },
                                }
                            },
                            _ => Err(ApiError::Malformed),
                        },
                        None => Err(ApiError::Malformed),
                    }
                },
                _ => Err(ApiError::Malformed),
            }
        },
    }
}

/// An identifier read from a loosely-shaped record: a string as itself, a
/// non-negative number in decimal.
pub open spec fn loose_id_of(v: JVal) -> Option<Seq<char>> {
    match v {
        JVal::Str(t) => Some(t),
        JVal::Int(i) => if i >= 0 {
            Some(dec_str(i as int))
        } else {
            None
        },
        _ => None,
    }
}

/// The newest diff identifier a diff-search response names: the first
/// data element's `id`, read loosely; any shape surprise reads as
/// absence.
pub open spec fn spec_latest_diff_id(s: Seq<char>) -> Option<Seq<char>> {
    match spec_parse_json(s) {
        Some(JVal::Obj(ms)) => match spec_obj_get(ms, "result"@) {
            Some(JVal::Obj(rm)) => match spec_obj_get(rm, "data"@) {
                Some(JVal::Arr(ds)) => if ds.len() > 0 {
                    match ds[0] {
                        JVal::Obj(dm) => match spec_obj_get(dm, "id"@) {
                            Some(x) => loose_id_of(x),
                            None => None,
                        },
                        _ => None,
                    }
                } else {
                    None
                },
                _ => None,
            },
            _ => None,
        },
        _ => None,
    }
}

fn loose_id(j: &Json) -> (r: Option<String>)
    ensures
        match loose_id_of(j@) {
            Some(t) => r matches Some(s) && s@ == t,
            None => r is None,
        },
{
    match j {
        Json::Str(t) => Some(chars_to_string(t)),
        Json::Int(i) => {
            if *i >= 0 {
                Some(chars_to_string(&u64_to_chars(*i as u64)))
            } else {
                None
            }
        },
        _ => None,
    }
}

/// Reads the newest diff identifier out of a diff-search response.
pub fn diff_id_from_search(body: &str) -> (r: Option<String>)
    ensures
        match spec_latest_diff_id(body@) {
            Some(t) => r matches Some(s) && s@ == t,
            None => r is None,
        },
{
    let bv = str_chars(body);
    let doc = match parse_json(&bv) {
        Some(d) => d,
        None => {
            return None;
        },
    };
    let ms = match &doc {
        Json::Obj(ms) => ms,
        _ => {
            return None;
        },
    };
    let rkey = str_chars("result");
    let rm = match obj_get(ms, &rkey) {
        Some(rv) => match rv {
            Json::Obj(rm) => rm,
            _ => {
                return None;
            },
        },
        None => {
            return None;
        },
    };
    let dkey = str_chars("data");
    let ds = match obj_get(rm, &dkey) {
        Some(dv) => match dv {
            Json::Arr(ds) => ds,
            _ => {
                return None;
            },
        },
        None => {
            return None;
        },
    };
    if ds.len() == 0 {
        return None;
    }
    proof {
        crate::json::lemma_arr_view(ds@);
    }
    let ikey = str_chars("id");
    match &ds[0] {
        Json::Obj(dm) => {
            match obj_get(dm, &ikey) {
                Some(x) => loose_id(x),
                None => None,
            }
        },
        _ => None,
    }
}

/// The diff identifier one transaction's field payload names, when it
/// names one.
pub open spec fn diff_id_of_fields(f: JVal) -> Option<Seq<char>> {
    match f {
        JVal::Obj(fm) => match spec_obj_get(fm, "diff"@) {
            Some(JVal::Obj(dm)) => match spec_obj_get(dm, "id"@) {
                Some(x) => loose_id_of(x),
                None => None,
            },
            _ => None,
        },
        _ => None,
    }
}

/// The changeset identifiers a transaction listing names, in order.
pub open spec fn spec_changeset_ids(ts: Seq<Transaction>) -> Seq<Seq<char>>
    decreases ts.len(),
{
    if ts.len() == 0 {
        Seq::empty()
    } else {
        spec_changeset_ids(ts.drop_last()) + (match diff_id_of_fields(ts.last().fields@) {
            Some(t) => seq![t],
            None => Seq::<Seq<char>>::empty(),
        })
    }
}

/// Collects the diff identifiers embedded in transaction field payloads.
pub fn changeset_ids_from_transactions(ts: &Vec<Transaction>) -> (r: Vec<String>)
    ensures
        r.deep_view() == spec_changeset_ids(ts@),
{
    let dkey = str_chars("diff");
    let ikey = str_chars("id");
    let n = ts.len();
    let mut out: Vec<String> = Vec::new();
    let mut k: usize = 0;
    while k < n
        invariant
            0 <= k <= n,
            n == ts@.len(),
            dkey@ == "diff"@,
            ikey@ == "id"@,
            out.deep_view() == spec_changeset_ids(ts@.take(k as int)),
        decreases n - k,
    {
        let ghost pre = out.deep_view();
        proof {
            assert(ts@.take(k + 1).drop_last() =~= ts@.take(k as int));
            assert(ts@.take(k + 1).last() == ts@[k as int]);
        }
        let found: Option<String> = match &ts[k].fields {
            Json::Obj(fm) => {
                match obj_get(fm, &dkey) {
                    Some(dv) => match dv {
                        Json::Obj(dm) => {
                            match obj_get(dm, &ikey) {
                                Some(x) => loose_id(x),
                                None => None,
                            }
                        },
                        _ => None,
                    },
                    None => None,
                }
            },
            _ => None,
        };
        match found {
            Some(s) => {
                let ghost gs = s@;
                out.push(s);
                proof {
                    assert(out.deep_view() =~~= pre.push(gs));
                }
            },
            None => {},
        }
        k = k + 1;
    }
    proof {
        assert(ts@.take(n as int) =~= ts@);
    }
    out
}

/// A display name composed from a person's recorded names, falling back
/// to their identifier.
pub open spec fn spec_display_name(
    real_name: Seq<char>,
    user_name: Seq<char>,
    phid: Seq<char>,
) -> Seq<char> {
    if real_name.len() > 0 {
        if user_name.len() > 0 {
            real_name + " ("@ + user_name + ")"@
        } else {
            real_name
        }
    } else if user_name.len() > 0 {
        user_name
    } else {
        phid
    }
}

/// Composes a display name from the recorded names.
pub fn display_name(real_name: &str, user_name: &str, phid: &str) -> (r: String)
    ensures
        r@ == spec_display_name(real_name@, user_name@, phid@),
{
    let rv = str_chars(real_name);
    let uv = str_chars(user_name);
    if rv.len() > 0 {
        if uv.len() > 0 {
            let mut out = rv;
            let ghost g0 = out@;
            let mut mid = str_chars(" (");
            let mut uu = uv;
            let ghost gu = uu.view();
            let mut tail = str_chars(")");
            out.append(&mut mid);
            out.append(&mut uu);
            out.append(&mut tail);
            proof {
                assert(out@ =~= g0 + " ("@ + gu + ")"@);
            }
            chars_to_string(&out)
        } else {
            chars_to_string(&rv)
        }
    } else if uv.len() > 0 {
        chars_to_string(&uv)
    } else {
        let pv = str_chars(phid);
        chars_to_string(&pv)
    }
}

/// The name field of the first user record, reading absence and blanks
/// as empty.
pub open spec fn user_field(fm: Seq<(Seq<char>, JVal)>, key: Seq<char>) -> Seq<char> {
    match spec_obj_get(fm, key) {
        Some(JVal::Str(t)) => t,
        _ => Seq::empty(),
    }
}

/// The display name a user-search response yields for `phid`: shape
/// surprises, reported errors, and an empty listing all fall back to the
/// identifier itself.
pub open spec fn spec_user_display(s: Seq<char>, phid: Seq<char>) -> Seq<char> {
    match spec_parse_json(s) {
        Some(JVal::Obj(ms)) => {
            if opt_str(ms, "error_code"@) is Some {
                phid
            } else {
                match spec_obj_get(ms, "result"@) {
                    Some(JVal::Obj(rm)) => match spec_obj_get(rm, "data"@) {
                        Some(JVal::Arr(ds)) => if ds.len() > 0 {
                            match ds[0] {
                                JVal::Obj(um) => match spec_obj_get(um, "fields"@) {
                                    Some(JVal::Obj(fm)) => spec_display_name(
                                        user_field(fm, "realName"@),
                                        user_field(fm, "username"@),
                                        phid,
                                    ),
                                    _ => phid,
                                },
                                _ => phid,
                            }
                        } else {
                            phid
                        },
                        _ => phid,
                    },
                    _ => phid,
                }
            }
        },
        _ => phid,
    }
}

/// Reads a user-search response into the display name recorded for
/// `phid`, or the identifier itself when nothing better is there.
pub fn user_display_from_response(body: &str, phid: &str) -> (r: String)
    ensures
        r@ == spec_user_display(body@, phid@),
{
    let bv = str_chars(body);
    let doc = match parse_json(&bv) {
        Some(d) => d,
        None => {
            let pv = str_chars(phid);
            return chars_to_string(&pv);
        },
    };
    let ms = match &doc {
        Json::Obj(ms) => ms,
        _ => {
            let pv = str_chars(phid);
            return chars_to_string(&pv);
        },
    };
    let ekey = str_chars("error_code");
    let has_err = match obj_get(ms, &ekey) {
        Some(ev) => match ev {
            Json::Str(_) => true,
            _ => false,
        },
        None => false,
    };
    if has_err {
        let pv = str_chars(phid);
        return chars_to_string(&pv);
    }
    let rkey = str_chars("result");
    let rm = match obj_get(ms, &rkey) {
        Some(rv) => match rv {
            Json::Obj(rm) => rm,
            _ => {
                let pv = str_chars(phid);
                return chars_to_string(&pv);
            },
        },
        None => {
            let pv = str_chars(phid);
            return chars_to_string(&pv);
        },
    };
    let dkey = str_chars("data");
    let ds = match obj_get(rm, &dkey) {
        Some(dv) => match dv {
            Json::Arr(ds) => ds,
            _ => {
                let pv = str_chars(phid);
                return chars_to_string(&pv);
            },
        },
        None => {
            let pv = str_chars(phid);
            return chars_to_string(&pv);
        },
    };
    if ds.len() == 0 {
        let pv = str_chars(phid);
        return chars_to_string(&pv);
    }
    proof {
        crate::json::lemma_arr_view(ds@);
    }
    let fkey = str_chars("fields");
    let rnkey = str_chars("realName");
    let unkey = str_chars("username");
    match &ds[0] {
        Json::Obj(um) => {
            match obj_get(um, &fkey) {
                Some(fv) => match fv {
                    Json::Obj(fm) => {
                        let rname: String = match obj_get(fm, &rnkey) {
                            Some(rv) => match rv {
                                Json::Str(t) => chars_to_string(t),
                                _ => String::new(),
                            },
                            None => String::new(),
                        };
                        let uname: String = match obj_get(fm, &unkey) {
                            Some(uv) => match uv {
                                Json::Str(t) => chars_to_string(t),
                                _ => String::new(),
                            },
                            None => String::new(),
                        };
                        display_name(rname.as_str(), uname.as_str(), phid)
                    },
                    _ => {
                        let pv = str_chars(phid);
                        chars_to_string(&pv)
                    },
                },
                None => {
                    let pv = str_chars(phid);
                    chars_to_string(&pv)
                },
            }
        },
        _ => {
            let pv = str_chars(phid);
            chars_to_string(&pv)
        },
    }
}

/// A memoizing map from user identifiers to display names, owned by the
/// run that fills it.
pub struct UserCache {
    pub entries: Vec<(String, String)>,
}

impl UserCache {
    /// The recorded names as an association list.
    pub open spec fn view_entries(&self) -> Seq<(Seq<char>, Seq<char>)> {
        Seq::new(self.entries@.len(), |k: int| (self.entries@[k].0@, self.entries@[k].1@))
    }

    /// An empty cache.
    pub fn new() -> (r: UserCache)
        ensures
            r.view_entries() == Seq::<(Seq<char>, Seq<char>)>::empty(),
    {
        let r = UserCache { entries: Vec::new() };
        proof {
            assert(r.view_entries() =~= Seq::<(Seq<char>, Seq<char>)>::empty());
        }
        r
    }

    /// The name recorded for an identifier, if any.
    pub fn lookup(&self, phid: &str) -> (r: Option<String>)
        ensures
            match crate::cookies::spec_lookup(self.view_entries(), phid@) {
                Some(v) => r matches Some(s) && s@ == v,
                None => r is None,
            },
    {
        let ghost full = self.view_entries();
        let nv = str_chars(phid);
        let n = self.entries.len();
        let mut k: usize = 0;
        proof {
            assert(full.skip(0) =~= full);
        }
        while k < n
            invariant
                0 <= k <= n,
                n == self.entries@.len(),
                nv@ == phid@,
                full == self.view_entries(),
                full.len() == n,
                crate::cookies::spec_lookup(full, phid@) == crate::cookies::spec_lookup(
                    full.skip(k as int),
                    phid@,
                ),
            decreases n - k,
        {
            proof {
                assert(full.skip(k as int)[0] == full[k as int]);
                assert(full.skip(k as int).drop_first() =~= full.skip(k + 1));
            }
            let kv = str_chars(self.entries[k].0.as_str());
            if crate::text::chars_eq(&kv, &nv) {
                let value = self.entries[k].1.clone();
                proof {
                    assert(full[k as int].0 == phid@);
                }
                return Some(value);
            }
            proof {
                assert(full[k as int].0 == kv@);
            }
            k = k + 1;
        }
        proof {
            assert(full.skip(k as int) =~= Seq::<(Seq<char>, Seq<char>)>::empty());
        }
        None
    }

    /// Records a resolved name for an identifier not yet recorded.
    pub fn record(&mut self, phid: String, name: String)
        requires
            crate::cookies::spec_lookup(old(self).view_entries(), phid@) is None,
        ensures
            final(self).view_entries() == old(self).view_entries().push((phid@, name@)),
    {
        let ghost pre = self.view_entries();
        self.entries.push((phid, name));
        proof {
            assert(self.view_entries() =~~= pre.push((phid@, name@)));
        }
    }
}

} // verus!
