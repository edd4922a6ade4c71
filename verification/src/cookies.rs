//! Session-cookie handling: reading a `;`-separated override string,
//! holding a validated cookie set, building the request header, and
//! choosing among browser profiles. A cookie set is valid only with both
//! required names present.
use vstd::prelude::*;

verus! {

use crate::text::{
    spec_find,
    spec_trim,
    find_at,
    sub_vec,
    trim_vec,
    str_chars,
    chars_to_string,
    chars_eq,
};

/// An association list updated by replacement: an existing name keeps its
/// place, a new one goes to the end.
pub open spec fn spec_insert(
    ps: Seq<(Seq<char>, Seq<char>)>,
    name: Seq<char>,
    val: Seq<char>,
) -> Seq<(Seq<char>, Seq<char>)>
    decreases ps.len(),
{
    if ps.len() == 0 {
        seq![(name, val)]
    } else if ps[0].0 == name {
        seq![(name, val)] + ps.drop_first()
    } else {
        seq![ps[0]] + spec_insert(ps.drop_first(), name, val)
    }
}

/// The value recorded under `name`.
pub open spec fn spec_lookup(ps: Seq<(Seq<char>, Seq<char>)>, name: Seq<char>) -> Option<Seq<char>>
    decreases ps.len(),
{
    if ps.len() == 0 {
        None
    } else if ps[0].0 == name {
        Some(ps[0].1)
    } else {
        spec_lookup(ps.drop_first(), name)
    }
}

/// Inserting records the value for that name.
pub proof fn lemma_insert_same(ps: Seq<(Seq<char>, Seq<char>)>, name: Seq<char>, val: Seq<char>)
    ensures
        spec_lookup(spec_insert(ps, name, val), name) == Some(val),
    decreases ps.len(),
{
    if ps.len() == 0 {
    } else if ps[0].0 == name {
    } else {
        lemma_insert_same(ps.drop_first(), name, val);
        assert((seq![ps[0]] + spec_insert(ps.drop_first(), name, val)).drop_first()
            =~= spec_insert(ps.drop_first(), name, val));
    }
}

/// Inserting one name leaves every other name's record alone.
pub proof fn lemma_insert_other(
    ps: Seq<(Seq<char>, Seq<char>)>,
    name: Seq<char>,
    val: Seq<char>,
    other: Seq<char>,
)
    requires
        other != name,
    ensures
        spec_lookup(spec_insert(ps, name, val), other) == spec_lookup(ps, other),
    decreases ps.len(),
{
    if ps.len() == 0 {
        assert(seq![(name, val)].drop_first() =~= Seq::<(Seq<char>, Seq<char>)>::empty());
        assert(spec_lookup(seq![(name, val)], other) == spec_lookup(
            seq![(name, val)].drop_first(),
            other,
        ));
    } else if ps[0].0 == name {
        let ins = seq![(name, val)] + ps.drop_first();
        assert(ins.drop_first() =~= ps.drop_first());
        assert(ins[0].0 == name);
        assert(spec_lookup(ins, other) == spec_lookup(ps.drop_first(), other));
        assert(spec_lookup(ps, other) == spec_lookup(ps.drop_first(), other));
    } else {
        lemma_insert_other(ps.drop_first(), name, val, other);
        let ins = seq![ps[0]] + spec_insert(ps.drop_first(), name, val);
        assert(ins.drop_first() =~= spec_insert(ps.drop_first(), name, val));
        assert(ins[0] == ps[0]);
        assert(spec_lookup(ps, other) == (if ps[0].0 == other {
            Some(ps[0].1)
        } else {
            spec_lookup(ps.drop_first(), other)
        }));
    }
}

/// The pieces of a cookie string, split at every `;`.
pub open spec fn spec_split(s: Seq<char>, i: int) -> Seq<Seq<char>>
    decreases s.len() - i,
{
    if i < 0 || i > s.len() {
        Seq::empty()
    } else {
        match spec_find(s, i, seq![';']) {
            Some(e) => if i <= e < s.len() {
                seq![s.subrange(i, e)] + spec_split(s, e + 1)
            } else {
                seq![s.subrange(i, s.len() as int)]
            },
            None => seq![s.subrange(i, s.len() as int)],
        }
    }
}

/// The name and value one piece contributes: the piece is trimmed, split
/// at its first `=`, and both halves trimmed; a piece without `=`
/// contributes nothing.
pub open spec fn spec_piece_entry(piece: Seq<char>) -> Option<(Seq<char>, Seq<char>)> {
    let p = spec_trim(piece);
    match spec_find(p, 0, seq!['=']) {
        Some(eq) => if 0 <= eq <= p.len() {
            Some((spec_trim(p.subrange(0, eq)), spec_trim(p.subrange(eq + 1, p.len() as int))))
        } else {
            None
        },
        None => None,
    }
}

/// The cookie set a sequence of pieces builds, later pieces overriding
/// earlier ones of the same name.
pub open spec fn spec_cookies_of_pieces(pieces: Seq<Seq<char>>) -> Seq<(Seq<char>, Seq<char>)>
    decreases pieces.len(),
{
    if pieces.len() == 0 {
        Seq::empty()
    } else {
        let prior = spec_cookies_of_pieces(pieces.drop_last());
        match spec_piece_entry(pieces.last()) {
            Some(e) => spec_insert(prior, e.0, e.1),
            None => prior,
        }
    }
}

/// The cookie set a `;`-separated cookie string describes.
pub open spec fn spec_parse_cookies(s: Seq<char>) -> Seq<(Seq<char>, Seq<char>)> {
    spec_cookies_of_pieces(spec_split(s, 0))
}

/// Both required cookie names are recorded.
pub open spec fn spec_has_required(ps: Seq<(Seq<char>, Seq<char>)>) -> bool {
    spec_lookup(ps, "phsid"@) is Some && spec_lookup(ps, "phusr"@) is Some
}

/// Both required names are extracted with exactly the values their last
/// pieces carry, wherever in the string those pieces stand and however
/// much whitespace surrounds names and values.
pub proof fn lemma_required_cookies_extracted(
    pieces: Seq<Seq<char>>,
    i: int,
    j: int,
    v1: Seq<char>,
    v2: Seq<char>,
)
    requires
        0 <= i < pieces.len(),
        0 <= j < pieces.len(),
        spec_piece_entry(pieces[i]) == Some(("phsid"@, v1)),
        spec_piece_entry(pieces[j]) == Some(("phusr"@, v2)),
        forall|k: int|
            i < k < pieces.len() ==> (match spec_piece_entry(#[trigger] pieces[k]) {
                Some(e) => e.0 != "phsid"@,
                None => true,
            }),
        forall|k: int|
            j < k < pieces.len() ==> (match spec_piece_entry(#[trigger] pieces[k]) {
                Some(e) => e.0 != "phusr"@,
                None => true,
            }),
    ensures
        spec_lookup(spec_cookies_of_pieces(pieces), "phsid"@) == Some(v1),
        spec_lookup(spec_cookies_of_pieces(pieces), "phusr"@) == Some(v2),
        spec_has_required(spec_cookies_of_pieces(pieces)),
    decreases pieces.len(),
{
    reveal_strlit("phsid");
    reveal_strlit("phusr");
    assert("phsid"@[2] == 's' && "phusr"@[2] == 'u');
    lemma_name_extracted(pieces, i, "phsid"@, v1);
    lemma_name_extracted(pieces, j, "phusr"@, v2);
}

/// The value recorded for a name is the one carried by its last piece.
pub proof fn lemma_name_extracted(pieces: Seq<Seq<char>>, i: int, name: Seq<char>, v: Seq<char>)
    requires
        0 <= i < pieces.len(),
        spec_piece_entry(pieces[i]) == Some((name, v)),
        forall|k: int|
            i < k < pieces.len() ==> (match spec_piece_entry(#[trigger] pieces[k]) {
                Some(e) => e.0 != name,
                None => true,
            }),
    ensures
        spec_lookup(spec_cookies_of_pieces(pieces), name) == Some(v),
    decreases pieces.len(),
{
    let prior = spec_cookies_of_pieces(pieces.drop_last());
    if i == pieces.len() - 1 {
        lemma_insert_same(prior, name, v);
    } else {
        assert(pieces.drop_last()[i] == pieces[i]);
        lemma_name_extracted(pieces.drop_last(), i, name, v);
        match spec_piece_entry(pieces.last()) {
            Some(e) => {
                assert(e.0 != name);
                lemma_insert_other(prior, e.0, e.1, name);
            },
            None => {},
        }
    }
}

/// Replacing a present name rewrites its pair in place.
pub proof fn lemma_insert_found(
    ps: Seq<(Seq<char>, Seq<char>)>,
    k: int,
    name: Seq<char>,
    val: Seq<char>,
)
    requires
        0 <= k < ps.len(),
        ps[k].0 == name,
        forall|w: int| 0 <= w < k ==> (#[trigger] ps[w]).0 != name,
    ensures
        spec_insert(ps, name, val) == ps.update(k, (name, val)),
    decreases ps.len(),
{
    if k == 0 {
        assert(spec_insert(ps, name, val) =~= ps.update(0, (name, val)));
    } else {
        assert(ps.drop_first()[k - 1].0 == name);
        assert(forall|w: int| 0 <= w < k - 1 ==> (#[trigger] ps.drop_first()[w]).0 != name);
        lemma_insert_found(ps.drop_first(), k - 1, name, val);
        assert(spec_insert(ps, name, val) =~= ps.update(k, (name, val)));
    }
}

/// Inserting an absent name appends its pair.
pub proof fn lemma_insert_absent(ps: Seq<(Seq<char>, Seq<char>)>, name: Seq<char>, val: Seq<char>)
    requires
        forall|w: int| 0 <= w < ps.len() ==> (#[trigger] ps[w]).0 != name,
    ensures
        spec_insert(ps, name, val) == ps.push((name, val)),
    decreases ps.len(),
{
    if ps.len() == 0 {
        assert(spec_insert(ps, name, val) =~= ps.push((name, val)));
    } else {
        assert(forall|w: int|
            0 <= w < ps.drop_first().len() ==> (#[trigger] ps.drop_first()[w]).0 != name);
        lemma_insert_absent(ps.drop_first(), name, val);
        assert(spec_insert(ps, name, val) =~= ps.push((name, val)));
    }
}

/// A set of session cookies for one domain; valid only when it holds both
/// required names.
pub struct CookieJar {
    pub pairs: Vec<(String, String)>,
}

impl CookieJar {
    /// The cookies as an association list of character sequences.
    pub open spec fn view_pairs(&self) -> Seq<(Seq<char>, Seq<char>)> {
        Seq::new(self.pairs@.len(), |k: int| (self.pairs@[k].0@, self.pairs@[k].1@))
    }

    /// An empty jar.
    pub fn new() -> (r: CookieJar)
        ensures
            r.view_pairs() == Seq::<(Seq<char>, Seq<char>)>::empty(),
    {
        let r = CookieJar { pairs: Vec::new() };
        proof {
            assert(r.view_pairs() =~= Seq::<(Seq<char>, Seq<char>)>::empty());
        }
        r
    }

    /// Records a cookie, replacing the value of an existing name.
    pub fn insert(&mut self, name: String, value: String)
        ensures
            final(self).view_pairs() == spec_insert(old(self).view_pairs(), name@, value@),
    {
        let ghost pre = old(self).view_pairs();
        let nv = str_chars(name.as_str());
        let n = self.pairs.len();
        let mut k: usize = 0;
        while k < n
            invariant
                0 <= k <= n,
                n == self.pairs@.len(),
                nv@ == name@,
                self.view_pairs() == pre,
                pre == old(self).view_pairs(),
                pre.len() == n,
                forall|w: int| 0 <= w < k ==> (#[trigger] pre[w]).0 != name@,
            decreases n - k,
        {
            let kv = str_chars(self.pairs[k].0.as_str());
            if chars_eq(&kv, &nv) {
                proof {
                    assert(pre[k as int].0 == name@);
                    lemma_insert_found(pre, k as int, name@, value@);
                }
                self.pairs.set(k, (name, value));
                proof {
                    assert(self.view_pairs() =~~= pre.update(k as int, (name@, value@)));
                    assert(self.view_pairs() == spec_insert(pre, name@, value@));
                }
                return ;
            }
            proof {
                assert(pre[k as int].0 == kv@);
            }
            k = k + 1;
        }
        proof {
            lemma_insert_absent(pre, name@, value@);
        }
        self.pairs.push((name, value));
        proof {
            assert(self.view_pairs() =~~= pre.push((name@, value@)));
        }
    }

    /// The value recorded under `name`, if any.
    pub fn get(&self, name: &str) -> (r: Option<String>)
        ensures
            match spec_lookup(self.view_pairs(), name@) {
                Some(v) => r matches Some(s) && s@ == v,
                None => r is None,
            },
    {
        let ghost full = self.view_pairs();
        let nv = str_chars(name);
        let n = self.pairs.len();
        let mut k: usize = 0;
        proof {
            assert(full.skip(0) =~= full);
        }
        while k < n
            invariant
                0 <= k <= n,
                n == self.pairs@.len(),
                nv@ == name@,
                full == self.view_pairs(),
                full.len() == n,
                spec_lookup(full, name@) == spec_lookup(full.skip(k as int), name@),
            decreases n - k,
        {
            proof {
                assert(full.skip(k as int)[0] == full[k as int]);
                assert(full.skip(k as int).drop_first() =~= full.skip(k + 1));
            }
            let kv = str_chars(self.pairs[k].0.as_str());
            if chars_eq(&kv, &nv) {
                let value = self.pairs[k].1.clone();
                proof {
                    assert(full[k as int].0 == name@);
                }
                return Some(value);
            }
            proof {
                assert(full[k as int].0 == kv@);
            }
            k = k + 1;
        }
        proof {
            assert(full.skip(k as int) =~= Seq::<(Seq<char>, Seq<char>)>::empty());
        }
        None
    }

    /// Whether both required session-cookie names are recorded.
    pub fn has_required(&self) -> (r: bool)
        ensures
            r == spec_has_required(self.view_pairs()),
    {
        self.get("phsid").is_some() && self.get("phusr").is_some()
    }

    /// The `Cookie` request header value: the pairs joined as
    /// `name=value`, separated by `; `.
    pub fn header_value(&self) -> (r: String)
        ensures
            r@ == spec_header(self.view_pairs()),
    {
        let ghost full = self.view_pairs();
        let n = self.pairs.len();
        let mut out: Vec<char> = Vec::new();
        let mut k: usize = 0;
        while k < n
            invariant
                0 <= k <= n,
                n == self.pairs@.len(),
                full == self.view_pairs(),
                full.len() == n,
                out@ == spec_header(full.take(k as int)),
            decreases n - k,
        {
            let ghost preout = out@;
            proof {
                assert(full.take(k + 1).drop_last() =~= full.take(k as int));
                assert(full.take(k + 1).last() == full[k as int]);
            }
            if k > 0 {
                out.push(';');
                out.push(' ');
            }
            let mut namev = str_chars(self.pairs[k].0.as_str());
            out.append(&mut namev);
            out.push('=');
            let mut valv = str_chars(self.pairs[k].1.as_str());
            out.append(&mut valv);
            proof {
                if k > 0 {
                    assert(out@ =~= preout + seq![';', ' '] + full[k as int].0 + seq!['=']
                        + full[k as int].1);
                } else {
                    assert(out@ =~= full[k as int].0 + seq!['='] + full[k as int].1);
                }
            }
            k = k + 1;
        }
        proof {
            assert(full.take(n as int) =~= full);
        }
        chars_to_string(&out)
    }
}

/// The `Cookie` header text a cookie set produces.
pub open spec fn spec_header(ps: Seq<(Seq<char>, Seq<char>)>) -> Seq<char>
    decreases ps.len(),
{
    if ps.len() == 0 {
        Seq::empty()
    } else if ps.len() == 1 {
        ps[0].0 + seq!['='] + ps[0].1
    } else {
        spec_header(ps.drop_last()) + seq![';', ' '] + ps.last().0 + seq!['='] + ps.last().1
    }
}

/// Failure to locate a session: the caller proceeds without
/// authentication and expects degraded results, not a crash.
#[derive(Clone, Copy, Debug, PartialEq, Eq, Structural)]
pub enum CredError {
    NoCredentials,
}

impl CredError {
    /// A short account of the failure.
    pub fn text(&self) -> (r: String)
        ensures
            r@ == "required session cookies not found"@,
    {
        let v = str_chars("required session cookies not found");
        chars_to_string(&v)
    }
}

/// Reads a `;`-separated cookie string into a jar.
pub fn parse_cookie_header(s: &str) -> (r: CookieJar)
    ensures
        r.view_pairs() == spec_parse_cookies(s@),
{
    let sv = str_chars(s);
    let semi = str_chars(";");
    proof {
        reveal_strlit(";");
        assert(semi@ =~= seq![';']);
    }
    let n = sv.len();
    let mut jar = CookieJar::new();
    let ghost mut gp = Seq::<Seq<char>>::empty();
    let mut i: usize = 0;
    proof {
        assert(gp + spec_split(s@, 0) =~~= spec_split(s@, 0));
    }
    loop
        invariant_except_break
            spec_split(s@, 0) == gp + spec_split(s@, i as int),
        invariant
            0 <= i <= n,
            n == sv@.len(),
            sv@ == s@,
            semi@ == seq![';'],
            jar.view_pairs() == spec_cookies_of_pieces(gp),
        ensures
            jar.view_pairs() == spec_cookies_of_pieces(spec_split(s@, 0)),
        decreases n - i,
    {
        let ghost g0 = gp;
        match find_at(&sv, i, &semi) {
            Some(e) => {
                let piece = sub_vec(&sv, i, e);
                let ghost gpiece = piece@;
                proof {
                    gp = gp.push(gpiece);
                    assert(spec_split(s@, i as int) == seq![gpiece] + spec_split(s@, e + 1));
                    assert(g0 + (seq![gpiece] + spec_split(s@, e + 1)) =~~= gp + spec_split(
                        s@,
                        e + 1,
                    ));
                    assert(gp.drop_last() =~= g0);
                    assert(gp.last() == gpiece);
                }
                add_piece(&mut jar, &piece);
                i = e + 1;
            },
            None => {
                let piece = sub_vec(&sv, i, n);
                let ghost gpiece = piece@;
                proof {
                    gp = gp.push(gpiece);
                    assert(spec_split(s@, i as int) == seq![gpiece]);
                    assert(g0 + seq![gpiece] =~~= gp);
                    assert(gp.drop_last() =~= g0);
                    assert(gp.last() == gpiece);
                }
                add_piece(&mut jar, &piece);
                proof {
                    assert(spec_split(s@, 0) == gp);
                }
                break ;
            },
        }
    }
    jar
}

/// Applies one piece of a cookie string to the jar.
fn add_piece(jar: &mut CookieJar, piece: &Vec<char>)
    ensures
        final(jar).view_pairs() == (match spec_piece_entry(piece@) {
            Some(e) => spec_insert(old(jar).view_pairs(), e.0, e.1),
            None => old(jar).view_pairs(),
        }),
{
    let eqp = str_chars("=");
    proof {
        reveal_strlit("=");
        assert(eqp@ =~= seq!['=']);
    }
    let p = trim_vec(piece);
    let np = p.len();
    match find_at(&p, 0, &eqp) {
        Some(eq) => {
            let namev = trim_vec(&sub_vec(&p, 0, eq));
            let valv = trim_vec(&sub_vec(&p, eq + 1, np));
            let name = chars_to_string(&namev);
            let value = chars_to_string(&valv);
            jar.insert(name, value);
        },
        None => {},
    }
}

/// Reads the credential override string: accepted only when it names
/// both required cookies; otherwise the caller must look elsewhere.
pub fn parse_cookie_override(s: &str) -> (r: Option<CookieJar>)
    ensures
        match r {
            Some(jar) => jar.view_pairs() == spec_parse_cookies(s@) && spec_has_required(
                spec_parse_cookies(s@),
            ),
            None => !spec_has_required(spec_parse_cookies(s@)),
        },
{
    let jar = parse_cookie_header(s);
    if jar.has_required() {
        Some(jar)
    } else {
        None
    }
}

/// The cookie set a sequence of store rows builds, in row order.
pub open spec fn spec_cookies_of_rows(rows: Seq<(Seq<char>, Seq<char>)>) -> Seq<
    (Seq<char>, Seq<char>),
>
    decreases rows.len(),
{
    if rows.len() == 0 {
        Seq::empty()
    } else {
        spec_insert(spec_cookies_of_rows(rows.drop_last()), rows.last().0, rows.last().1)
    }
}

/// Builds a jar from cookie-store rows; fails without both required
/// names, and then the caller proceeds unauthenticated.
pub fn cookies_from_rows(rows: &Vec<(String, String)>) -> (r: Result<CookieJar, CredError>)
    ensures
        match r {
            Ok(jar) => jar.view_pairs() == spec_cookies_of_rows(rows_view(rows@))
                && spec_has_required(spec_cookies_of_rows(rows_view(rows@))),
            Err(e) => e == CredError::NoCredentials && !spec_has_required(
                spec_cookies_of_rows(rows_view(rows@)),
            ),
        },
{
    let ghost full = rows_view(rows@);
    let mut jar = CookieJar::new();
    let n = rows.len();
    let mut k: usize = 0;
    while k < n
        invariant
            0 <= k <= n,
            n == rows@.len(),
            full == rows_view(rows@),
            full.len() == n,
            jar.view_pairs() == spec_cookies_of_rows(full.take(k as int)),
        decreases n - k,
    {
        proof {
            assert(full.take(k + 1).drop_last() =~= full.take(k as int));
            assert(full.take(k + 1).last() == full[k as int]);
        }
        let name = rows[k].0.clone();
        let value = rows[k].1.clone();
        proof {
            assert(full[k as int] == (rows@[k as int].0@, rows@[k as int].1@));
        }
        jar.insert(name, value);
        k = k + 1;
    }
    proof {
        assert(full.take(n as int) =~= full);
    }
    if jar.has_required() {
        Ok(jar)
    } else {
        Err(CredError::NoCredentials)
    }
}

/// Store rows as pairs of character sequences.
pub open spec fn rows_view(rows: Seq<(String, String)>) -> Seq<(Seq<char>, Seq<char>)> {
    Seq::new(rows.len(), |k: int| (rows[k].0@, rows[k].1@))
}

/// Chooses among browser profiles: of those whose store holds both
/// required cookies, the most recently modified wins, and of equally
/// recent ones the earliest listed.
pub fn pick_profile(profiles: &Vec<(u64, bool)>) -> (r: Option<usize>)
    ensures
        match r {
            Some(j) => j < profiles@.len() && profiles@[j as int].1 && (forall|k: int|
                0 <= k < profiles@.len() && (#[trigger] profiles@[k]).1 ==> (profiles@[k].0
                    < profiles@[j as int].0 || (profiles@[k].0 == profiles@[j as int].0 && j <= k))),
            None => forall|k: int| 0 <= k < profiles@.len() ==> !(#[trigger] profiles@[k]).1,
        },
{
    let n = profiles.len();
    let mut best: Option<usize> = None;
    let mut k: usize = 0;
    while k < n
        invariant
            0 <= k <= n,
            n == profiles@.len(),
            match best {
                Some(j) => j < k && profiles@[j as int].1 && (forall|w: int|
                    0 <= w < k && (#[trigger] profiles@[w]).1 ==> (profiles@[w].0 < profiles@[
                        j as int].0 || (profiles@[w].0 == profiles@[j as int].0 && j <= w))),
                None => forall|w: int| 0 <= w < k ==> !(#[trigger] profiles@[w]).1,
            },
        decreases n - k,
    {
        if profiles[k].1 {
            match best {
                Some(j) => {
                    if profiles[k].0 > profiles[j].0 {
                        best = Some(k);
                    }
                },
                None => {
                    best = Some(k);
                },
            }
        }
        k = k + 1;
    }
    best
}

} // verus!
