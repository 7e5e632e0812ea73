//! The inline matcher: splits a span of text into text, emphasis, code,
//! link and image elements, recursing into everything but code and images.
use vstd::prelude::*;
use crate::ast::Inline;
use crate::text::{chars_of, slice, string_of};

verus! {

/// The six inline constructs, in the order that breaks ties between matches
/// that start at the same place.
#[derive(Debug, Clone, Copy, PartialEq, Eq, Structural)]
pub enum InlineKind {
    Image,
    Link,
    Code,
    Strikethrough,
    Bold,
    Italic,
}

/// A match of one construct: where it starts and ends, and its one or two
/// captured parts (`g1`, and for links and images `g2`, the url).
pub struct MatchSpec {
    pub kind: InlineKind,
    pub start: int,
    pub end: int,
    pub g1s: int,
    pub g1e: int,
    pub g2s: int,
    pub g2e: int,
}

/// The executable form of `MatchSpec`.
#[derive(Debug, Clone, Copy)]
pub struct InlineMatch {
    pub kind: InlineKind,
    pub start: usize,
    pub end: usize,
    pub g1s: usize,
    pub g1e: usize,
    pub g2s: usize,
    pub g2e: usize,
}

impl InlineMatch {
    pub open spec fn view(self) -> MatchSpec {
        MatchSpec {
            kind: self.kind,
            start: self.start as int,
            end: self.end as int,
            g1s: self.g1s as int,
            g1e: self.g1e as int,
            g2s: self.g2s as int,
            g2e: self.g2e as int,
        }
    }
}

pub open spec fn opt_view(m: Option<InlineMatch>) -> Option<MatchSpec> {
    match m {
        Some(x) => Some(x.view()),
        None => None,
    }
}

/// First index at or after `from` that holds `c`, or `s.len()` if none does.
pub open spec fn find_char(s: Seq<char>, from: int, c: char) -> int
    decreases s.len() - from,
{
    if from < 0 || from >= s.len() {
        s.len() as int
    } else if s[from] == c {
        from
    } else {
        find_char(s, from + 1, c)
    }
}

pub proof fn lemma_find_char(s: Seq<char>, from: int, c: char)
    requires
        0 <= from,
    ensures
        from <= find_char(s, from, c) <= s.len() || (from > s.len() && find_char(s, from, c)
            == s.len()),
        find_char(s, from, c) < s.len() ==> s[find_char(s, from, c)] == c,
        forall|i: int| from <= i < find_char(s, from, c) ==> s[i] != c,
    decreases s.len() - from,
{
    if from < s.len() && s[from] != c {
        lemma_find_char(s, from + 1, c);
    }
}

pub fn find_char_exec(s: &Vec<char>, from: usize, c: char) -> (r: usize)
    requires
        from <= s@.len(),
    ensures
        r == find_char(s@, from as int, c),
{
    let mut i = from;
    while i < s.len() && s[i] != c
        invariant
            from <= i <= s@.len(),
            find_char(s@, i as int, c) == find_char(s@, from as int, c),
        decreases s@.len() - i,
    {
        i = i + 1;
    }
    i
}

/// Where the closing `**` of a bold span stands, scanning from `q`: the body
/// is a non-empty run of units, each a character other than `*` or a `*`
/// followed by such a character, and the shortest such body wins.
pub open spec fn bold_close(s: Seq<char>, q: int, started: bool) -> Option<int>
    decreases s.len() - q,
{
    if q < 0 || q >= s.len() {
        None
    } else if started && q + 1 < s.len() && s[q] == '*' && s[q + 1] == '*' {
        Some(q)
    } else if s[q] != '*' {
        bold_close(s, q + 1, true)
    } else if q + 1 < s.len() && s[q + 1] != '*' {
        bold_close(s, q + 2, true)
    } else {
        None
    }
}

/// Where the closing `*` of an italic span stands, scanning from `q`: the body
/// is a non-empty run of units, each a character other than `*` or a `**`,
/// and the longest such body followed by a `*` wins.
pub open spec fn italic_close(s: Seq<char>, q: int, started: bool, best: Option<int>) -> Option<
    int,
>
    decreases s.len() - q,
{
    if q < 0 || q >= s.len() {
        best
    } else if s[q] != '*' {
        italic_close(s, q + 1, true, best)
    } else {
        let best2 = if started {
            Some(q)
        } else {
            best
        };
        if q + 1 < s.len() && s[q + 1] == '*' {
            italic_close(s, q + 2, true, best2)
        } else {
            best2
        }
    }
}

/// The match of construct `k` that starts at `p`, if there is one.
pub open spec fn match_at(s: Seq<char>, p: int, k: InlineKind) -> Option<MatchSpec> {
    if p < 0 || p >= s.len() {
        None
    } else {
        match k {
            InlineKind::Image => {
                if p + 1 < s.len() && s[p] == '!' && s[p + 1] == '[' {
                    let a = find_char(s, p + 2, ']');
                    if a + 1 < s.len() && s[a + 1] == '(' {
                        let u = find_char(s, a + 2, ')');
                        if u < s.len() && u > a + 2 {
                            Some(
                                MatchSpec {
                                    kind: k,
                                    start: p,
                                    end: u + 1,
                                    g1s: p + 2,
                                    g1e: a,
                                    g2s: a + 2,
                                    g2e: u,
                                },
                            )
                        } else {
                            None
                        }
                    } else {
                        None
                    }
                } else {
                    None
                }
            },
            InlineKind::Link => {
                if s[p] == '[' {
                    let a = find_char(s, p + 1, ']');
                    if a > p + 1 && a + 1 < s.len() && s[a + 1] == '(' {
                        let u = find_char(s, a + 2, ')');
                        if u < s.len() && u > a + 2 {
                            Some(
                                MatchSpec {
                                    kind: k,
                                    start: p,
                                    end: u + 1,
                                    g1s: p + 1,
                                    g1e: a,
                                    g2s: a + 2,
                                    g2e: u,
                                },
                            )
                        } else {
                            None
                        }
                    } else {
                        None
                    }
                } else {
                    None
                }
            },
            InlineKind::Code => {
                if s[p] == '`' {
                    let e = find_char(s, p + 1, '`');
                    if e < s.len() && e > p + 1 {
                        Some(
                            MatchSpec {
                                kind: k,
                                start: p,
                                end: e + 1,
                                g1s: p + 1,
                                g1e: e,
                                g2s: p,
                                g2e: p,
                            },
                        )
                    } else {
                        None
                    }
                } else {
                    None
                }
            },
            InlineKind::Strikethrough => {
                if p + 1 < s.len() && s[p] == '~' && s[p + 1] == '~' {
                    let e = find_char(s, p + 2, '~');
                    if e > p + 2 && e + 1 < s.len() && s[e + 1] == '~' {
                        Some(
                            MatchSpec {
                                kind: k,
                                start: p,
                                end: e + 2,
                                g1s: p + 2,
                                g1e: e,
                                g2s: p,
                                g2e: p,
                            },
                        )
                    } else {
                        None
                    }
                } else {
                    None
                }
            },
            InlineKind::Bold => {
                if p + 1 < s.len() && s[p] == '*' && s[p + 1] == '*' {
                    match bold_close(s, p + 2, false) {
                        Some(q) => Some(
                            MatchSpec {
                                kind: k,
                                start: p,
                                end: q + 2,
                                g1s: p + 2,
                                g1e: q,
                                g2s: p,
                                g2e: p,
                            },
                        ),
                        None => None,
                    }
                } else {
                    None
                }
            },
            InlineKind::Italic => {
                if s[p] == '*' {
                    match italic_close(s, p + 1, false, None) {
                        Some(b) => Some(
                            MatchSpec {
                                kind: k,
                                start: p,
                                end: b + 1,
                                g1s: p + 1,
                                g1e: b,
                                g2s: p,
                                g2e: p,
                            },
                        ),
                        None => None,
                    }
                } else {
                    None
                }
            },
        }
    }
}

/// The leftmost match of construct `k` that starts at or after `from`.
pub open spec fn first_match(s: Seq<char>, from: int, k: InlineKind) -> Option<MatchSpec>
    decreases s.len() - from,
{
    if from < 0 || from >= s.len() {
        None
    } else if match_at(s, from, k) is Some {
        match_at(s, from, k)
    } else {
        first_match(s, from + 1, k)
    }
}

/// Keeps `best` unless `cand` starts strictly earlier.
pub open spec fn prefer(best: Option<MatchSpec>, cand: Option<MatchSpec>) -> Option<MatchSpec> {
    match cand {
        Some(c) => match best {
            Some(b) => if c.start < b.start {
                cand
            } else {
                best
            },
            None => cand,
        },
        None => best,
    }
}

/// An italic match that touches another `*` on either side would split a
/// bold delimiter; such a candidate is passed over.
pub open spec fn italic_touches_star(s: Seq<char>, m: MatchSpec) -> bool {
    (m.start > 0 && s[m.start - 1] == '*') || (m.end < s.len() && s[m.end] == '*')
}

/// The leftmost italic match at or after `from` that touches no other `*`:
/// a candidate that does is passed over and the scan goes on from the next
/// position.
pub open spec fn first_italic(s: Seq<char>, from: int) -> Option<MatchSpec>
    decreases s.len() - from,
{
    if from < 0 || from >= s.len() {
        None
    } else if match_at(s, from, InlineKind::Italic) matches Some(m) && !italic_touches_star(s, m) {
        match_at(s, from, InlineKind::Italic)
    } else {
        first_italic(s, from + 1)
    }
}

pub proof fn lemma_first_italic_wf(s: Seq<char>, from: int)
    ensures
        first_italic(s, from) matches Some(m) ==> match_wf(s, m) && from <= m.start && m.kind
            == InlineKind::Italic && match_at(s, m.start, InlineKind::Italic) == Some(m)
            && !italic_touches_star(s, m),
    decreases s.len() - from,
{
    if 0 <= from < s.len() {
        lemma_match_at_wf(s, from, InlineKind::Italic);
        if !(match_at(s, from, InlineKind::Italic) matches Some(m) && !italic_touches_star(s, m)) {
            lemma_first_italic_wf(s, from + 1);
        }
    }
}

/// The match that the matcher takes next: the earliest-starting leftmost match
/// of the six constructs, ties going to image, link, code, strikethrough, bold,
/// italic in that order; italic candidates that touch another `*` are passed
/// over (see `first_italic`).
pub open spec fn earliest(s: Seq<char>) -> Option<MatchSpec> {
    let b = prefer(
        prefer(
            prefer(
                prefer(first_match(s, 0, InlineKind::Image), first_match(s, 0, InlineKind::Link)),
                first_match(s, 0, InlineKind::Code),
            ),
            first_match(s, 0, InlineKind::Strikethrough),
        ),
        first_match(s, 0, InlineKind::Bold),
    );
    prefer(b, first_italic(s, 0))
}

/// `x` is a text element holding exactly `t`.
pub open spec fn is_text(x: Inline, t: Seq<char>) -> bool {
    x matches Inline::Text { content } && content@ == t
}

/// `r` is what the matcher makes of `s`: text before the next match, the
/// element for that match (its body parsed again, except for code and images),
/// then whatever the rest of `s` gives; where nothing matches, `s` as one text
/// element (and nothing at all for an empty `s`).
pub open spec fn inline_parse(s: Seq<char>, r: Seq<Inline>) -> bool
    decreases s.len(),
{
    match earliest(s) {
        None => if s.len() == 0 {
            r.len() == 0
        } else {
            r.len() == 1 && is_text(r[0], s)
        },
        Some(m) => {
            let pre: int = if m.start > 0 {
                1
            } else {
                0
            };
            if 0 <= m.start < m.end <= s.len() && m.start < m.g1s <= m.g1e <= m.end && m.g2s
                <= m.g2e <= m.end && 0 <= m.g2s && r.len() >= pre + 1 {
                let x = r[pre];
                let g1 = s.subrange(m.g1s, m.g1e);
                let g2 = s.subrange(m.g2s, m.g2e);
                &&& (m.start > 0 ==> is_text(r[0], s.subrange(0, m.start)))
                &&& match m.kind {
                    InlineKind::Image => x matches Inline::Image { alt, url } && alt@ == g1 && url@
                        == g2,
                    InlineKind::Link => x matches Inline::Link { text, url } && url@ == g2
                        && inline_parse(g1, text@),
                    InlineKind::Code => is_text_code(x, g1),
                    InlineKind::Strikethrough => x matches Inline::Strikethrough { content }
                        && inline_parse(g1, content@),
                    InlineKind::Bold => x matches Inline::Bold { content } && inline_parse(
                        g1,
                        content@,
                    ),
                    InlineKind::Italic => x matches Inline::Italic { content } && inline_parse(
                        g1,
                        content@,
                    ),
                }
                &&& inline_parse(s.subrange(m.end, s.len() as int), r.subrange(pre + 1, r.len() as int))
            } else {
                false
            }
        },
    }
}

/// `x` is a code element holding exactly `t`, not parsed any further.
pub open spec fn is_text_code(x: Inline, t: Seq<char>) -> bool {
    x matches Inline::Code { content } && content@ == t
}

pub proof fn lemma_bold_close(s: Seq<char>, q: int, started: bool)
    requires
        0 <= q,
    ensures
        bold_close(s, q, started) matches Some(r) ==> q <= r && r + 1 < s.len() && (started || q
            < r),
    decreases s.len() - q,
{
    if q < s.len() {
        if started && q + 1 < s.len() && s[q] == '*' && s[q + 1] == '*' {
        } else if s[q] != '*' {
            lemma_bold_close(s, q + 1, true);
        } else if q + 1 < s.len() && s[q + 1] != '*' {
            lemma_bold_close(s, q + 2, true);
        }
    }
}

pub proof fn lemma_italic_close(s: Seq<char>, q: int, started: bool, best: Option<int>)
    requires
        0 <= q,
    ensures
        italic_close(s, q, started, best) matches Some(b) ==> best == Some(b) || (q <= b
            < s.len() && s[b] == '*' && (started || q < b)),
    decreases s.len() - q,
{
    if q < s.len() {
        let best2 = if started {
            Some(q)
        } else {
            best
        };
        if s[q] != '*' {
            lemma_italic_close(s, q + 1, true, best);
        } else if q + 1 < s.len() && s[q + 1] == '*' {
            lemma_italic_close(s, q + 2, true, best2);
        }
    }
}

/// Every match lies within `s`, its parts within it, its body strictly inside.
pub open spec fn match_wf(s: Seq<char>, m: MatchSpec) -> bool {
    &&& 0 <= m.start < m.end <= s.len()
    &&& m.start < m.g1s <= m.g1e <= m.end
    &&& 0 <= m.g2s <= m.g2e <= m.end
}

pub proof fn lemma_match_at_wf(s: Seq<char>, p: int, k: InlineKind)
    ensures
        match_at(s, p, k) matches Some(m) ==> match_wf(s, m) && m.start == p && m.kind == k,
{
    if 0 <= p < s.len() {
        match k {
            InlineKind::Image => {
                if p + 1 < s.len() {
                    lemma_find_char(s, p + 2, ']');
                    let a = find_char(s, p + 2, ']');
                    if a + 1 < s.len() {
                        lemma_find_char(s, a + 2, ')');
                    }
                }
            },
            InlineKind::Link => {
                lemma_find_char(s, p + 1, ']');
                let a = find_char(s, p + 1, ']');
                if a + 1 < s.len() {
                    lemma_find_char(s, a + 2, ')');
                }
            },
            InlineKind::Code => {
                lemma_find_char(s, p + 1, '`');
            },
            InlineKind::Strikethrough => {
                lemma_find_char(s, p + 2, '~');
            },
            InlineKind::Bold => {
                lemma_bold_close(s, p + 2, false);
            },
            InlineKind::Italic => {
                lemma_italic_close(s, p + 1, false, None);
            },
        }
    }
}

pub proof fn lemma_first_match_wf(s: Seq<char>, from: int, k: InlineKind)
    ensures
        first_match(s, from, k) matches Some(m) ==> match_wf(s, m) && from <= m.start && m.kind
            == k && match_at(s, m.start, k) == Some(m),
    decreases s.len() - from,
{
    if 0 <= from < s.len() {
        lemma_match_at_wf(s, from, k);
        if match_at(s, from, k) is None {
            lemma_first_match_wf(s, from + 1, k);
        }
    }
}

pub proof fn lemma_earliest_wf(s: Seq<char>)
    ensures
        earliest(s) matches Some(m) ==> match_wf(s, m),
{
    lemma_first_match_wf(s, 0, InlineKind::Image);
    lemma_first_match_wf(s, 0, InlineKind::Link);
    lemma_first_match_wf(s, 0, InlineKind::Code);
    lemma_first_match_wf(s, 0, InlineKind::Strikethrough);
    lemma_first_match_wf(s, 0, InlineKind::Bold);
    lemma_first_italic_wf(s, 0);
}

fn bold_close_exec(s: &Vec<char>, q0: usize) -> (r: Option<usize>)
    requires
        q0 <= s@.len(),
    ensures
        r matches Some(x) ==> bold_close(s@, q0 as int, false) == Some(x as int),
        r is None ==> bold_close(s@, q0 as int, false) is None,
{
    let mut q = q0;
    let mut started = false;
    loop
        invariant
            q <= s@.len(),
            bold_close(s@, q as int, started) == bold_close(s@, q0 as int, false),
        decreases s@.len() - q,
    {
        if q >= s.len() {
            return None;
        }
        if started && q + 1 < s.len() && s[q] == '*' && s[q + 1] == '*' {
            return Some(q);
        }
        if s[q] != '*' {
            q = q + 1;
        } else if q + 1 < s.len() && s[q + 1] != '*' {
            q = q + 2;
        } else {
            return None;
        }
        started = true;
    }
}

fn italic_close_exec(s: &Vec<char>, q0: usize) -> (r: Option<usize>)
    requires
        q0 <= s@.len(),
    ensures
        r matches Some(x) ==> italic_close(s@, q0 as int, false, None) == Some(x as int),
        r is None ==> italic_close(s@, q0 as int, false, None) is None,
{
    let mut q = q0;
    let mut started = false;
    let mut best: Option<usize> = None;
    loop
        invariant
            q <= s@.len(),
            italic_close(s@, q as int, started, match best {
                Some(b) => Some(b as int),
                None => None,
            }) == italic_close(s@, q0 as int, false, None),
        decreases s@.len() - q,
    {
        if q >= s.len() {
            return best;
        }
        if s[q] != '*' {
            q = q + 1;
            started = true;
        } else {
            if started {
                best = Some(q);
            }
            if q + 1 < s.len() && s[q + 1] == '*' {
                q = q + 2;
                started = true;
            } else {
                return best;
            }
        }
    }
}

fn mk(kind: InlineKind, start: usize, end: usize, g1s: usize, g1e: usize, g2s: usize, g2e: usize) -> (r: InlineMatch)
    ensures
        r.view() == (MatchSpec { kind, start: start as int, end: end as int, g1s: g1s as int, g1e: g1e as int, g2s: g2s as int, g2e: g2e as int }),
{
    InlineMatch { kind, start, end, g1s, g1e, g2s, g2e }
}

/// The match of construct `k` that starts at `p`, if any.
pub fn match_at_exec(s: &Vec<char>, p: usize, k: InlineKind) -> (r: Option<InlineMatch>)
    requires
        p < s@.len(),
    ensures
        opt_view(r) == match_at(s@, p as int, k),
{
    let n = s.len();
    match k {
        InlineKind::Image => {
            if p + 1 < n && s[p] == '!' && s[p + 1] == '[' {
                let a = find_char_exec(s, p + 2, ']');
                proof { lemma_find_char(s@, (p + 2) as int, ']'); }
                if a < n && a + 1 < n && s[a + 1] == '(' {
                    let u = find_char_exec(s, a + 2, ')');
                    proof { lemma_find_char(s@, (a + 2) as int, ')'); }
                    if u < n && u > a + 2 {
                        return Some(mk(k, p, u + 1, p + 2, a, a + 2, u));
                    }
                }
            }
            None
        },
        InlineKind::Link => {
            if s[p] == '[' {
                let a = find_char_exec(s, p + 1, ']');
                proof { lemma_find_char(s@, (p + 1) as int, ']'); }
                if a > p + 1 && a < n && a + 1 < n && s[a + 1] == '(' {
                    let u = find_char_exec(s, a + 2, ')');
                    proof { lemma_find_char(s@, (a + 2) as int, ')'); }
                    if u < n && u > a + 2 {
                        return Some(mk(k, p, u + 1, p + 1, a, a + 2, u));
                    }
                }
            }
            None
        },
        InlineKind::Code => {
            if s[p] == '`' {
                let e = find_char_exec(s, p + 1, '`');
                proof { lemma_find_char(s@, (p + 1) as int, '`'); }
                if e < n && e > p + 1 {
                    return Some(mk(k, p, e + 1, p + 1, e, p, p));
                }
            }
            None
        },
        InlineKind::Strikethrough => {
            if p + 1 < n && s[p] == '~' && s[p + 1] == '~' {
                let e = find_char_exec(s, p + 2, '~');
               proof { lemma_find_char(s@, (p + 2) as int, '~'); }
                if e > p + 2 && e < n && e + 1 < n && s[e + 1] == '~' {
                    return Some(mk(k, p, e + 2, p + 2, e, p, p));
                }
            }
            None
        },
        InlineKind::Bold => {
            if p + 1 < n && s[p] == '*' && s[p + 1] == '*' {
                let c = bold_close_exec(s, p + 2);
                proof { lemma_bold_close(s@, p + 2, false); }
                match c {
                    Some(q) => {
                        return Some(mk(k, p, q + 2, p + 2, q, p, p));
                    },
                    None => {},
                }
            }
            None
        },
        InlineKind::Italic => {
            if s[p] == '*' {
                let c = italic_close_exec(s, p + 1);
                proof { lemma_italic_close(s@, p + 1, false, None); }
                match c {
                    Some(b) => {
                        return Some(mk(k, p, b + 1, p + 1, b, p, p));
                    },
                    None => {},
                }
            }
            None
        },
    }
}

/// The leftmost match of construct `k` in `s`.
pub fn first_match_exec(s: &Vec<char>, k: InlineKind) -> (r: Option<InlineMatch>)
    ensures
        opt_view(r) == first_match(s@, 0, k),
{
    let mut p: usize = 0;
    while p < s.len()
        invariant
            p <= s@.len(),
            first_match(s@, p as int, k) == first_match(s@, 0, k),
        decreases s@.len() - p,
    {
        let m = match_at_exec(s, p, k);
        if m.is_some() {
            return m;
        }
        p = p + 1;
    }
    None
}

fn prefer_exec(best: Option<InlineMatch>, cand: Option<InlineMatch>) -> (r: Option<InlineMatch>)
    ensures
        opt_view(r) == prefer(opt_view(best), opt_view(cand)),
{
    match cand {
        Some(c) => match best {
            Some(b) => if c.start < b.start {
                cand
            } else {
                best
            },
            None => cand,
        },
        None => best,
    }
}

/// The match that the matcher takes next in `s`, if any.
pub fn earliest_exec(s: &Vec<char>) -> (r: Option<InlineMatch>)
    ensures
        opt_view(r) == earliest(s@),
{
    let b = first_match_exec(s, InlineKind::Image);
    let b = prefer_exec(b, first_match_exec(s, InlineKind::Link));
    let b = prefer_exec(b, first_match_exec(s, InlineKind::Code));
    let b = prefer_exec(b, first_match_exec(s, InlineKind::Strikethrough));
    let b = prefer_exec(b, first_match_exec(s, InlineKind::Bold));
    prefer_exec(b, first_italic_exec(s))
}

/// The leftmost italic match in `s` that touches no other `*`.
pub fn first_italic_exec(s: &Vec<char>) -> (r: Option<InlineMatch>)
    ensures
        opt_view(r) == first_italic(s@, 0),
{
    let mut p: usize = 0;
    while p < s.len()
        invariant
            p <= s@.len(),
            first_italic(s@, p as int) == first_italic(s@, 0),
        decreases s@.len() - p,
    {
        let c = match_at_exec(s, p, InlineKind::Italic);
        proof { lemma_match_at_wf(s@, p as int, InlineKind::Italic); }
        match c {
            Some(m) => {
                let touches = (m.start > 0 && s[m.start - 1] == '*') || (m.end < s.len()
                    && s[m.end] == '*');
                if !touches {
                    return c;
                }
            },
            None => {},
        }
        p = p + 1;
    }
    None
}

/// The inline elements of `s`.
pub fn parse_inline_chars(s: &Vec<char>) -> (r: Vec<Inline>)
    ensures
        inline_parse(s@, r@),
        s@.len() > 0 ==> r@.len() > 0,
        earliest(s@) is None && s@.len() > 0 ==> r@.len() == 1 && is_text(r@[0], s@),
    decreases s@.len(),
{
    let found = earliest_exec(s);
    proof { lemma_earliest_wf(s@); }
    match found {
        None => {
            let mut out: Vec<Inline> = Vec::new();
            if s.len() > 0 {
                out.push(Inline::Text { content: string_of(s) });
            }
            out
        },
        Some(m) => {
            let mut out: Vec<Inline> = Vec::new();
            if m.start > 0 {
                out.push(Inline::Text { content: string_of(&slice(s, 0, m.start)) });
            }
            let pre = out.len();
            let g1 = slice(s, m.g1s, m.g1e);
            let node = match m.kind {
                InlineKind::Image => Inline::Image {
                    alt: string_of(&g1),
                    url: string_of(&slice(s, m.g2s, m.g2e)),
                },
                InlineKind::Link => Inline::Link {
                    text: parse_inline_chars(&g1),
                    url: string_of(&slice(s, m.g2s, m.g2e)),
                },
                InlineKind::Code => Inline::Code { content: string_of(&g1) },
                InlineKind::Strikethrough => Inline::Strikethrough {
                    content: parse_inline_chars(&g1),
                },
                InlineKind::Bold => Inline::Bold { content: parse_inline_chars(&g1) },
                InlineKind::Italic => Inline::Italic { content: parse_inline_chars(&g1) },
            };
            out.push(node);
            let rest = slice(s, m.end, s.len());
            let mut tail = parse_inline_chars(&rest);
            let ghost head = out@;
            let ghost tl = tail@;
            out.append(&mut tail);
            proof {
                assert(head.len() == pre + 1);
                assert(out@.subrange(pre + 1, out@.len() as int) =~= tl);
                assert(out@[pre as int] == head[pre as int]);
                if m.start > 0 {
                    assert(out@[0] == head[0]);
                }
            }
            out
        },
    }
}

/// Splits `text` into inline elements. Never fails: syntax that does not
/// close is kept as text, and a non-empty `text` never gives an empty result.
pub fn parse_inline(text: &str) -> (r: Vec<Inline>)
    ensures
        inline_parse(text@, r@),
        text@.len() > 0 ==> r@.len() > 0,
        earliest(text@) is None && text@.len() > 0 ==> r@.len() == 1 && is_text(r@[0], text@),
{
    let v = chars_of(text);
    parse_inline_chars(&v)
}

/// `s` holds none of the characters that open an inline construct.
pub open spec fn has_no_markers(s: Seq<char>) -> bool {
    forall|i: int| 0 <= i < s.len() ==> s[i] != '[' && s[i] != '`' && s[i] != '~' && s[i] != '*'
}

proof fn lemma_no_first_match(s: Seq<char>, from: int, k: InlineKind)
    requires
        has_no_markers(s),
    ensures
        first_match(s, from, k) is None,
    decreases s.len() - from,
{
    if 0 <= from < s.len() {
        assert(match_at(s, from, k) is None);
        lemma_no_first_match(s, from + 1, k);
    }
}

/// Text with no inline syntax in it parses to exactly one text element that
/// holds all of it.
pub proof fn lemma_plain_text_is_one_text(s: Seq<char>, r: Seq<Inline>)
    requires
        s.len() > 0,
        has_no_markers(s),
        inline_parse(s, r),
    ensures
        r.len() == 1,
        is_text(r[0], s),
{
    lemma_no_first_match(s, 0, InlineKind::Image);
    lemma_no_first_match(s, 0, InlineKind::Link);
    lemma_no_first_match(s, 0, InlineKind::Code);
    lemma_no_first_match(s, 0, InlineKind::Strikethrough);
    lemma_no_first_match(s, 0, InlineKind::Bold);
    lemma_no_first_italic(s, 0);
}

proof fn lemma_no_first_italic(s: Seq<char>, from: int)
    requires
        has_no_markers(s),
    ensures
        first_italic(s, from) is None,
    decreases s.len() - from,
{
    if 0 <= from < s.len() {
        assert(match_at(s, from, InlineKind::Italic) is None);
        lemma_no_first_italic(s, from + 1);
    }
}

/// The matcher never splits a `**` pair with an italic span: the span that it
/// takes for an italic element starts and ends with a `*`, and neither of
/// those touches another `*` in the text being scanned.
pub proof fn lemma_italic_never_touches_star(s: Seq<char>)
    ensures
        earliest(s) matches Some(m) ==> (m.kind == InlineKind::Italic ==> {
            &&& s[m.start] == '*'
            &&& s[m.end - 1] == '*'
            &&& !(m.start > 0 && s[m.start - 1] == '*')
            &&& !(m.end < s.len() && s[m.end] == '*')
        }),
{
    lemma_first_match_wf(s, 0, InlineKind::Image);
    lemma_first_match_wf(s, 0, InlineKind::Link);
    lemma_first_match_wf(s, 0, InlineKind::Code);
    lemma_first_match_wf(s, 0, InlineKind::Strikethrough);
    lemma_first_match_wf(s, 0, InlineKind::Bold);
    lemma_first_italic_wf(s, 0);
    let it = first_italic(s, 0);
    if it is Some {
        let m = it->Some_0;
        lemma_italic_close(s, m.start + 1, false, None);
    }
}

} // verus!
