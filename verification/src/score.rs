//! Scoring of fetched changeset responses and selection of the best
//! candidate: suggestion markup outranks an inline-suggestion view, which
//! outranks a bare inline-comment marker; ties keep the earlier fetch.
use vstd::prelude::*;

verus! {

use crate::text::{contains_seq, contains_at, str_chars};

/// The relevance score of a response body: ordinal, not a probability;
/// only the ordering of the three markers is meant.
pub open spec fn spec_score(body: Seq<char>) -> int {
    (if contains_seq(body, "suggestionText"@) {
        100int
    } else {
        0int
    }) + (if contains_seq(body, "inline-suggestion-view"@) {
        10int
    } else {
        0int
    }) + (if contains_seq(body, "differential-inline-comment"@) {
        1int
    } else {
        0int
    })
}

/// Scores one response body.
pub fn score_response(body: &str) -> (r: u32)
    ensures
        r as int == spec_score(body@),
{
    let bv = str_chars(body);
    score_response_chars(&bv)
}

/// Scores a response body already held as characters.
pub fn score_response_chars(bv: &Vec<char>) -> (r: u32)
    ensures
        r as int == spec_score(bv@),
{
    let m1 = str_chars("suggestionText");
    let m2 = str_chars("inline-suggestion-view");
    let m3 = str_chars("differential-inline-comment");
    proof {
        reveal_strlit("suggestionText");
        reveal_strlit("inline-suggestion-view");
        reveal_strlit("differential-inline-comment");
    }
    let mut score: u32 = 0;
    if contains_at(bv, &m1) {
        score = score + 100;
    }
    if contains_at(bv, &m2) {
        score = score + 10;
    }
    if contains_at(bv, &m3) {
        score = score + 1;
    }
    score
}

/// The fold behind candidate selection: index and score of the best
/// candidate seen so far, updated only on a strictly greater score.
pub open spec fn spec_best_from(bodies: Seq<Seq<char>>, k: int, bi: int, bs: int) -> (int, int)
    decreases bodies.len() - k,
{
    if k < 0 || k >= bodies.len() {
        (bi, bs)
    } else {
        let sc = spec_score(bodies[k]);
        if sc > bs {
            spec_best_from(bodies, k + 1, k, sc)
        } else {
            spec_best_from(bodies, k + 1, bi, bs)
        }
    }
}

/// The index of the best-scoring candidate, when any scored above zero:
/// strictly greater scores win; ties keep the earlier candidate.
pub open spec fn spec_best(bodies: Seq<Seq<char>>) -> Option<int> {
    let p = spec_best_from(bodies, 0, -1, 0);
    if p.0 >= 0 {
        Some(p.0)
    } else {
        None
    }
}

proof fn lemma_best_from_props(bodies: Seq<Seq<char>>, k: int, bi: int, bs: int)
    requires
        0 <= k <= bodies.len(),
        -1 <= bi < k,
        bi >= 0 ==> spec_score(bodies[bi]) == bs && bs > 0,
        bi < 0 ==> bs == 0,
        forall|w: int| 0 <= w < k ==> spec_score(#[trigger] bodies[w]) <= bs,
        forall|w: int| 0 <= w < bi ==> spec_score(#[trigger] bodies[w]) < bs,
    ensures
        ({
            let p = spec_best_from(bodies, k, bi, bs);
            &&& -1 <= p.0 < bodies.len()
            &&& p.0 >= 0 ==> spec_score(bodies[p.0]) == p.1 && p.1 > 0
            &&& p.0 < 0 ==> p.1 == 0 && p.0 == bi
            &&& forall|w: int| 0 <= w < bodies.len() ==> spec_score(#[trigger] bodies[w]) <= p.1
            &&& forall|w: int| 0 <= w < p.0 ==> spec_score(#[trigger] bodies[w]) < p.1
        }),
    decreases bodies.len() - k,
{
    if k < bodies.len() {
        let sc = spec_score(bodies[k]);
        if sc > bs {
            lemma_best_from_props(bodies, k + 1, k, sc);
        } else {
            lemma_best_from_props(bodies, k + 1, bi, bs);
        }
    }
}

/// The selection contract: a selected candidate scored above zero and no
/// other scored higher; earlier candidates scored strictly lower, so a
/// tie never displaces the first; and nothing is selected only when no
/// candidate scored above zero. A zero-scoring candidate is never
/// preferred over a positive one.
pub proof fn lemma_best_selection(bodies: Seq<Seq<char>>)
    ensures
        match spec_best(bodies) {
            Some(j) => {
                &&& 0 <= j < bodies.len()
                &&& spec_score(bodies[j]) > 0
                &&& forall|w: int|
                    0 <= w < bodies.len() ==> spec_score(#[trigger] bodies[w]) <= spec_score(
                        bodies[j],
                    )
                &&& forall|w: int| 0 <= w < j ==> spec_score(#[trigger] bodies[w]) < spec_score(
                    bodies[j],
                )
            },
            None => forall|w: int| 0 <= w < bodies.len() ==> spec_score(#[trigger] bodies[w]) <= 0,
        },
{
    lemma_best_from_props(bodies, 0, -1, 0);
}

/// Picks the best-scoring response among the fetched candidates; absence
/// means every response scored zero.
pub fn select_best(bodies: &Vec<String>) -> (r: Option<usize>)
    ensures
        match spec_best(bodies.deep_view()) {
            Some(j) => r matches Some(q) && q as int == j,
            None => r is None,
        },
{
    let ghost full = bodies.deep_view();
    let mut best: Option<usize> = None;
    let mut bs: u32 = 0;
    let mut k: usize = 0;
    while k < bodies.len()
        invariant
            0 <= k <= bodies@.len(),
            full == bodies.deep_view(),
            full.len() == bodies@.len(),
            match best {
                Some(b) => b < k && bs > 0,
                None => bs == 0,
            },
            spec_best_from(full, 0, -1, 0) == spec_best_from(
                full,
                k as int,
                match best {
                    Some(b) => b as int,
                    None => -1,
                },
                bs as int,
            ),
        decreases bodies@.len() - k,
    {
        let sc = score_response(bodies[k].as_str());
        proof {
            assert(bodies@[k as int]@ == full[k as int]);
        }
        if sc > bs {
            best = Some(k);
            bs = sc;
        }
        k = k + 1;
    }
    best
}

/// A changeset fetched by identifier is kept when it shows suggestion
/// markup, or is a substantial diff rendering.
pub open spec fn spec_changeset_acceptable(text: Seq<char>) -> bool {
    contains_seq(text, "inline-suggestion-view"@) || contains_seq(text, "suggestionText"@) || (
    text.len() > 1000 && contains_seq(text, "differential-diff"@))
}

/// Whether a changeset response fetched by identifier is worth keeping.
pub fn changeset_acceptable(text: &str) -> (r: bool)
    ensures
        r == spec_changeset_acceptable(text@),
{
    let tv = str_chars(text);
    let m1 = str_chars("inline-suggestion-view");
    let m2 = str_chars("suggestionText");
    let m3 = str_chars("differential-diff");
    proof {
        reveal_strlit("inline-suggestion-view");
        reveal_strlit("suggestionText");
        reveal_strlit("differential-diff");
    }
    contains_at(&tv, &m1) || contains_at(&tv, &m2) || (tv.len() > 1000 && contains_at(&tv, &m3))
}

/// A response probed with a guessed identifier is kept only when it shows
/// suggestion markup.
pub open spec fn spec_probe_acceptable(text: Seq<char>) -> bool {
    contains_seq(text, "inline-suggestion-view"@) || contains_seq(text, "suggestionText"@)
}

/// Whether a probed response is worth keeping.
pub fn probe_acceptable(text: &str) -> (r: bool)
    ensures
        r == spec_probe_acceptable(text@),
{
    let tv = str_chars(text);
    let m1 = str_chars("inline-suggestion-view");
    let m2 = str_chars("suggestionText");
    proof {
        reveal_strlit("inline-suggestion-view");
        reveal_strlit("suggestionText");
    }
    contains_at(&tv, &m1) || contains_at(&tv, &m2)
}

} // verus!
