//! Anti-forgery token discovery: a revision page is searched with a
//! hidden-field pattern and a JSON-literal pattern, in that order, and on
//! plain pages with a metadata-tag and a script pattern. Absence is not
//! fatal; requests then carry a placeholder.
use vstd::prelude::*;

verus! {

use crate::text::{spec_find, find_at, sub_vec, str_chars, chars_to_string};

/// No line break anywhere in `s[lo..hi)`.
pub open spec fn no_newline(s: Seq<char>, lo: int, hi: int) -> bool {
    forall|k: int| lo <= k < hi ==> s[k] != '\n'
}

/// The hidden-field pattern: after a `__csrf__` occurrence, on the same
/// line, a quoted `value` attribute with something in it.
pub open spec fn spec_csrf_field(s: Seq<char>, i: int) -> Option<Seq<char>>
    decreases s.len() - i,
{
    if i < 0 {
        None
    } else {
        match spec_find(s, i, "__csrf__"@) {
            None => None,
            Some(a) => {
                let next = a + 8;
                match spec_find(s, next, "value=\""@) {
                    None => None,
                    Some(v) => {
                        let cs = v + 7;
                        match spec_find(s, cs, seq!['"']) {
                            None => None,
                            Some(q) => if no_newline(s, next, v) && q > cs {
                                Some(s.subrange(cs, q))
                            } else if next > i && next <= s.len() {
                                spec_csrf_field(s, next)
                            } else {
                                None
                            },
                        }
                    },
                }
            },
        }
    }
}

/// The JSON-literal pattern: a quoted `current` member with something in
/// it.
pub open spec fn spec_csrf_current(s: Seq<char>, i: int) -> Option<Seq<char>>
    decreases s.len() - i,
{
    if i < 0 {
        None
    } else {
        match spec_find(s, i, "\"current\":\""@) {
            None => None,
            Some(a) => {
                let cs = a + 11;
                match spec_find(s, cs, seq!['"']) {
                    None => None,
                    Some(q) => if q > cs {
                        Some(s.subrange(cs, q))
                    } else if a + 1 > i && a + 1 <= s.len() {
                        spec_csrf_current(s, a + 1)
                    } else {
                        None
                    },
                }
            },
        }
    }
}

/// The token an authenticated revision page yields: the hidden-field
/// pattern first, then the JSON-literal pattern. Absence is an accepted
/// outcome.
pub open spec fn spec_find_csrf(s: Seq<char>) -> Option<Seq<char>> {
    match spec_csrf_field(s, 0) {
        Some(t) => Some(t),
        None => spec_csrf_current(s, 0),
    }
}

fn no_newline_exec(s: &Vec<char>, lo: usize, hi: usize) -> (r: bool)
    requires
        lo <= hi <= s@.len(),
    ensures
        r == no_newline(s@, lo as int, hi as int),
{
    let mut k: usize = lo;
    while k < hi
        invariant
            lo <= k <= hi <= s@.len(),
            forall|w: int| lo <= w < k ==> s@[w] != '\n',
        decreases hi - k,
    {
        if s[k] == '\n' {
            return false;
        }
        k = k + 1;
    }
    true
}

fn csrf_field(s: &Vec<char>) -> (r: Option<Vec<char>>)
    ensures
        match spec_csrf_field(s@, 0) {
            Some(t) => r matches Some(v) && v@ == t,
            None => r is None,
        },
{
    let marker = str_chars("__csrf__");
    let vpat = str_chars("value=\"");
    let quot = str_chars("\"");
    proof {
        reveal_strlit("__csrf__");
        reveal_strlit("value=\"");
        reveal_strlit("\"");
        assert(quot@ =~= seq!['"']);
    }
    let n = s.len();
    let mut i: usize = 0;
    loop
        invariant
            0 <= i <= n,
            n == s@.len(),
            marker@ == "__csrf__"@,
            marker@.len() == 8,
            vpat@ == "value=\""@,
            vpat@.len() == 7,
            quot@ == seq!['"'],
            spec_csrf_field(s@, 0) == spec_csrf_field(s@, i as int),
        decreases n - i,
    {
        match find_at(s, i, &marker) {
            None => {
                return None;
            },
            Some(a) => {
                let next = a + 8;
                match find_at(s, next, &vpat) {
                    None => {
                        return None;
                    },
                    Some(v) => {
                        let cs = v + 7;
                        match find_at(s, cs, &quot) {
                            None => {
                                return None;
                            },
                            Some(q) => {
                                if no_newline_exec(s, next, v) && q > cs {
                                    return Some(sub_vec(s, cs, q));
                                }
                                i = next;
                            },
                        }
                    },
                }
            },
        }
    }
}

fn csrf_current(s: &Vec<char>) -> (r: Option<Vec<char>>)
    ensures
        match spec_csrf_current(s@, 0) {
            Some(t) => r matches Some(v) && v@ == t,
            None => r is None,
        },
{
    let marker = str_chars("\"current\":\"");
    let quot = str_chars("\"");
    proof {
        reveal_strlit("\"current\":\"");
        reveal_strlit("\"");
        assert(quot@ =~= seq!['"']);
        assert(marker@.len() == 11);
    }
    let n = s.len();
    let mut i: usize = 0;
    loop
        invariant
            0 <= i <= n,
            n == s@.len(),
            marker@ == "\"current\":\""@,
            marker@.len() == 11,
            quot@ == seq!['"'],
            spec_csrf_current(s@, 0) == spec_csrf_current(s@, i as int),
        decreases n - i,
    {
        match find_at(s, i, &marker) {
            None => {
                return None;
            },
            Some(a) => {
                let cs = a + 11;
                match find_at(s, cs, &quot) {
                    None => {
                        return None;
                    },
                    Some(q) => {
                        if q > cs {
                            return Some(sub_vec(s, cs, q));
                        }
                        i = a + 1;
                    },
                }
            },
        }
    }
}

/// Searches a fetched revision page for the anti-forgery token.
pub fn find_csrf_token(html: &str) -> (r: Option<String>)
    ensures
        match spec_find_csrf(html@) {
            Some(t) => r matches Some(v) && v@ == t,
            None => r is None,
        },
{
    let s = str_chars(html);
    match csrf_field(&s) {
        Some(t) => Some(chars_to_string(&t)),
        None => {
            match csrf_current(&s) {
                Some(t) => Some(chars_to_string(&t)),
                None => None,
            }
        },
    }
}

/// The metadata-tag pattern of a plain page: a `csrf-token` name followed
/// in the same tag by a quoted `content` attribute.
pub open spec fn spec_csrf_meta(s: Seq<char>) -> Option<Seq<char>> {
    match spec_find(s, 0, "name=\"csrf-token\""@) {
        None => None,
        Some(m) => match spec_find(s, m, seq!['>']) {
            None => None,
            Some(te) => match spec_find(s, m, "content=\""@) {
                None => None,
                Some(c) => {
                    let cs = c + 9;
                    match spec_find(s, cs, seq!['"']) {
                        None => None,
                        Some(q) => if c < te && q > cs {
                            Some(s.subrange(cs, q))
                        } else {
                            None
                        },
                    }
                },
            },
        },
    }
}

/// The script pattern of a plain page: a `csrf` key, an optional quote, a
/// colon with blanks around it, a quote, and something up to the next
/// quote.
pub open spec fn spec_csrf_script(s: Seq<char>, i: int) -> Option<Seq<char>>
    decreases s.len() - i,
{
    if i < 0 {
        None
    } else {
        match spec_find(s, i, "csrf"@) {
            None => None,
            Some(a) => {
                let b = a + 4;
                let b2 = if b < s.len() && (s[b] == '"' || s[b] == '\'') {
                    b + 1
                } else {
                    b
                };
                let c = crate::refs::pws_end(s, b2);
                if c < s.len() && s[c] == ':' {
                    let d = crate::refs::pws_end(s, c + 1);
                    if d < s.len() && (s[d] == '"' || s[d] == '\'') {
                        let cs = d + 1;
                        let e1 = spec_find(s, cs, seq!['"']);
                        let e2 = spec_find(s, cs, seq!['\'']);
                        let q = (match (e1, e2) {
                            (Some(x), Some(y)) => if x <= y {
                                Some(x)
                            } else {
                                Some(y)
                            },
                            (Some(x), None) => Some(x),
                            (None, Some(y)) => Some(y),
                            (None, None) => None,
                        });
                        match q {
                            Some(qq) => if qq > cs {
                                Some(s.subrange(cs, qq))
                            } else if b > i && b <= s.len() {
                                spec_csrf_script(s, b)
                            } else {
                                None
                            },
                            None => None,
                        }
                    } else if b > i && b <= s.len() {
                        spec_csrf_script(s, b)
                    } else {
                        None
                    }
                } else if b > i && b <= s.len() {
                    spec_csrf_script(s, b)
                } else {
                    None
                }
            },
        }
    }
}

/// The token a plain (unauthenticated) page yields: the metadata tag
/// first, then the script pattern.
pub open spec fn spec_find_csrf_document(s: Seq<char>) -> Option<Seq<char>> {
    match spec_csrf_meta(s) {
        Some(t) => Some(t),
        None => spec_csrf_script(s, 0),
    }
}

fn csrf_meta(s: &Vec<char>) -> (r: Option<Vec<char>>)
    ensures
        match spec_csrf_meta(s@) {
            Some(t) => r matches Some(v) && v@ == t,
            None => r is None,
        },
{
    let namep = str_chars("name=\"csrf-token\"");
    let contp = str_chars("content=\"");
    let gt = str_chars(">");
    let quot = str_chars("\"");
    proof {
        reveal_strlit("name=\"csrf-token\"");
        reveal_strlit("content=\"");
        reveal_strlit(">");
        reveal_strlit("\"");
        assert(gt@ =~= seq!['>']);
        assert(quot@ =~= seq!['"']);
        assert(contp@.len() == 9);
    }
    let n = s.len();
    let m = match find_at(s, 0, &namep) {
        Some(m) => m,
        None => {
            return None;
        },
    };
    let te = match find_at(s, m, &gt) {
        Some(te) => te,
        None => {
            return None;
        },
    };
    let c = match find_at(s, m, &contp) {
        Some(c) => c,
        None => {
            return None;
        },
    };
    let cs = c + 9;
    let q = match find_at(s, cs, &quot) {
        Some(q) => q,
        None => {
            return None;
        },
    };
    if c < te && q > cs {
        Some(sub_vec(s, cs, q))
    } else {
        None
    }
}

fn csrf_script(s: &Vec<char>) -> (r: Option<Vec<char>>)
    ensures
        match spec_csrf_script(s@, 0) {
            Some(t) => r matches Some(v) && v@ == t,
            None => r is None,
        },
{
    let marker = str_chars("csrf");
    let dq = str_chars("\"");
    let sq = str_chars("'");
    proof {
        reveal_strlit("csrf");
        reveal_strlit("\"");
        reveal_strlit("'");
        assert(dq@ =~= seq!['"']);
        assert(sq@ =~= seq!['\'']);
    }
    let n = s.len();
    let mut i: usize = 0;
    loop
        invariant
            0 <= i <= n,
            n == s@.len(),
            marker@ == "csrf"@,
            marker@.len() == 4,
            dq@ == seq!['"'],
            sq@ == seq!['\''],
            spec_csrf_script(s@, 0) == spec_csrf_script(s@, i as int),
        decreases n - i,
    {
        match find_at(s, i, &marker) {
            None => {
                return None;
            },
            Some(a) => {
                let b = a + 4;
                let b2 = if b < n && (s[b] == '"' || s[b] == '\'') {
                    b + 1
                } else {
                    b
                };
                let c = crate::refs::pws_scan(s, b2);
                if c < n && s[c] == ':' {
                    let d = crate::refs::pws_scan(s, c + 1);
                    if d < n && (s[d] == '"' || s[d] == '\'') {
                        let cs = d + 1;
                        let e1 = find_at(s, cs, &dq);
                        let e2 = find_at(s, cs, &sq);
                        let q: Option<usize> = match (e1, e2) {
                            (Some(x), Some(y)) => if x <= y {
                                Some(x)
                            } else {
                                Some(y)
                            },
                            (Some(x), None) => Some(x),
                            (None, Some(y)) => Some(y),
                            (None, None) => None,
                        };
                        match q {
                            Some(qq) => {
                                if qq > cs {
                                    return Some(sub_vec(s, cs, qq));
                                }
                                i = b;
                            },
                            None => {
                                return None;
                            },
                        }
                    } else {
                        i = b;
                    }
                } else {
                    i = b;
                }
            },
        }
    }
}

/// Searches a plain page for the anti-forgery token.
pub fn find_csrf_token_document(html: &str) -> (r: Option<String>)
    ensures
        match spec_find_csrf_document(html@) {
            Some(t) => r matches Some(v) && v@ == t,
            None => r is None,
        },
{
    let s = str_chars(html);
    match csrf_meta(&s) {
        Some(t) => Some(chars_to_string(&t)),
        None => {
            match csrf_script(&s) {
                Some(t) => Some(chars_to_string(&t)),
                None => None,
            }
        },
    }
}

} // verus!
