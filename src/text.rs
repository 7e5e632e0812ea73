//! Character-level helpers shared by every parser: whitespace, trimming,
//! prefix tests and line splitting, all over sequences of `char`.
use vstd::prelude::*;
use vstd::std_specs::iter::IteratorSpec;

verus! {

/// The characters with the Unicode `White_Space` property, which is what
/// `char::is_whitespace` and `str::trim` go by.
pub open spec fn is_ws(c: char) -> bool {
    ('\u{9}' <= c && c <= '\u{d}') || c == ' ' || c == '\u{85}' || c == '\u{a0}'
        || c == '\u{1680}' || ('\u{2000}' <= c && c <= '\u{200a}') || c == '\u{2028}'
        || c == '\u{2029}' || c == '\u{202f}' || c == '\u{205f}' || c == '\u{3000}'
}

pub fn is_ws_char(c: char) -> (r: bool)
    ensures
        r == is_ws(c),
{
    ('\u{9}' <= c && c <= '\u{d}') || c == ' ' || c == '\u{85}' || c == '\u{a0}'
        || c == '\u{1680}' || ('\u{2000}' <= c && c <= '\u{200a}') || c == '\u{2028}'
        || c == '\u{2029}' || c == '\u{202f}' || c == '\u{205f}' || c == '\u{3000}'
}

/// Index of the first non-whitespace character at or after `from` (or `s.len()`).
pub open spec fn skip_ws(s: Seq<char>, from: int) -> int
    decreases s.len() - from,
{
    if from >= s.len() || from < 0 {
        if from < 0 { 0 } else { s.len() as int }
    } else if is_ws(s[from]) {
        skip_ws(s, from + 1)
    } else {
        from
    }
}

/// One past the last non-whitespace character strictly before `to` (or `lo`).
pub open spec fn skip_ws_back(s: Seq<char>, lo: int, to: int) -> int
    decreases to - lo,
{
    if to <= lo {
        lo
    } else if is_ws(s[to - 1]) {
        skip_ws_back(s, lo, to - 1)
    } else {
        to
    }
}

/// `s` with leading and trailing whitespace removed.
pub open spec fn trim(s: Seq<char>) -> Seq<char> {
    let a = skip_ws(s, 0);
    s.subrange(a, skip_ws_back(s, a, s.len() as int))
}

/// `s` with leading whitespace removed.
pub open spec fn trim_start(s: Seq<char>) -> Seq<char> {
    s.subrange(skip_ws(s, 0), s.len() as int)
}

pub proof fn lemma_skip_ws_bounds(s: Seq<char>, from: int)
    requires
        0 <= from <= s.len(),
    ensures
        from <= skip_ws(s, from) <= s.len(),
        forall|i: int| from <= i < skip_ws(s, from) ==> is_ws(#[trigger] s[i]),
        skip_ws(s, from) < s.len() ==> !is_ws(s[skip_ws(s, from)]),
    decreases s.len() - from,
{
    if from < s.len() && is_ws(s[from]) {
        lemma_skip_ws_bounds(s, from + 1);
    }
}

pub proof fn lemma_skip_ws_back_bounds(s: Seq<char>, lo: int, to: int)
    requires
        0 <= lo <= to <= s.len(),
    ensures
        lo <= skip_ws_back(s, lo, to) <= to,
        forall|i: int| skip_ws_back(s, lo, to) <= i < to ==> is_ws(#[trigger] s[i]),
        skip_ws_back(s, lo, to) > lo ==> !is_ws(s[skip_ws_back(s, lo, to) - 1]),
    decreases to - lo,
{
    if to > lo && is_ws(s[to - 1]) {
        lemma_skip_ws_back_bounds(s, lo, to - 1);
    }
}

/// The characters of `s`, in order.
pub fn chars_of(s: &str) -> (r: Vec<char>)
    ensures
        r@ == s@,
{
    broadcast use vstd::string::group_string_axioms;
    let mut out: Vec<char> = Vec::new();
    let mut it = s.chars();
    loop
        invariant
            out@ + it.remaining() == s@,
            it.decrease() is Some,
        decreases it.decrease()->0,
    {
        match it.next() {
            Some(c) => {
                out.push(c);
                proof {
                    assert(out@ + it.remaining() =~= s@);
                }
            },
            None => {
                proof {
                    assert(out@ =~= s@);
                }
                return out;
            },
        }
    }
}

/// Relies on collecting `char`s into a `String` (`FromIterator<&char>`): the same
/// characters, in order.
#[verifier::external_body]
pub(crate) fn string_of(v: &Vec<char>) -> (r: String)
    ensures
        r@ == v@,
{
    v.iter().collect()
}

/// The trimmed `s` starts with the first non-whitespace character of `s`.
pub proof fn lemma_trim_first(s: Seq<char>)
    ensures
        skip_ws(s, 0) < s.len() ==> trim(s).len() > 0 && trim(s)[0] == s[skip_ws(s, 0)],
        skip_ws(s, 0) >= s.len() ==> trim(s).len() == 0,
{
    lemma_skip_ws_bounds(s, 0);
    let a = skip_ws(s, 0);
    lemma_skip_ws_back_bounds(s, a, s.len() as int);
    let b = skip_ws_back(s, a, s.len() as int);
    if a < s.len() && b == a {
        assert(is_ws(s[a]));
    }
}

/// Index of the first non-whitespace character of `s` at or after `from`.
pub fn skip_ws_exec(s: &Vec<char>, from: usize) -> (r: usize)
    requires
        from <= s@.len(),
    ensures
        r == skip_ws(s@, from as int),
{
    let mut i = from;
    while i < s.len() && is_ws_char(s[i])
        invariant
            from <= i <= s@.len(),
            skip_ws(s@, i as int) == skip_ws(s@, from as int),
        decreases s@.len() - i,
    {
        i = i + 1;
    }
    i
}

/// One past the last non-whitespace character in `s[lo..to]`, or `lo`.
pub fn skip_ws_back_exec(s: &Vec<char>, lo: usize, to: usize) -> (r: usize)
    requires
        lo <= to <= s@.len(),
    ensures
        r == skip_ws_back(s@, lo as int, to as int),
{
    let mut j = to;
    while j > lo && is_ws_char(s[j - 1])
        invariant
            lo <= j <= to,
            to <= s@.len(),
            skip_ws_back(s@, lo as int, j as int) == skip_ws_back(s@, lo as int, to as int),
        decreases j,
    {
        j = j - 1;
    }
    j
}

/// Copies `s[from..to]` into a new vector.
pub fn slice(s: &Vec<char>, from: usize, to: usize) -> (r: Vec<char>)
    requires
        from <= to <= s@.len(),
    ensures
        r@ == s@.subrange(from as int, to as int),
{
    let mut r: Vec<char> = Vec::new();
    let mut i = from;
    while i < to
        invariant
            from <= i <= to,
            to <= s@.len(),
            r@ == s@.subrange(from as int, i as int),
        decreases to - i,
    {
        r.push(s[i]);
        i = i + 1;
    }
    r
}

/// `s` without leading and trailing whitespace.
pub fn trim_exec(s: &Vec<char>) -> (r: Vec<char>)
    ensures
        r@ == trim(s@),
{
    let a = skip_ws_exec(s, 0);
    proof { lemma_skip_ws_bounds(s@, 0); }
    let b = skip_ws_back_exec(s, a, s.len());
    proof { lemma_skip_ws_back_bounds(s@, a as int, s@.len() as int); }
    slice(s, a, b)
}

/// `s` without leading whitespace.
pub fn trim_start_exec(s: &Vec<char>) -> (r: Vec<char>)
    ensures
        r@ == trim_start(s@),
{
    let a = skip_ws_exec(s, 0);
    proof { lemma_skip_ws_bounds(s@, 0); }
    slice(s, a, s.len())
}

/// `p` is a prefix of `s`.
pub open spec fn starts_with(s: Seq<char>, p: Seq<char>) -> bool {
    p.len() <= s.len() && s.subrange(0, p.len() as int) == p
}

pub fn starts_with_exec(s: &Vec<char>, p: &Vec<char>) -> (r: bool)
    ensures
        r == starts_with(s@, p@),
{
    if p.len() > s.len() {
        return false;
    }
    let mut i: usize = 0;
    while i < p.len()
        invariant
            p@.len() <= s@.len(),
            i <= p@.len(),
            forall|k: int| 0 <= k < i ==> s@[k] == p@[k],
        decreases p@.len() - i,
    {
        if s[i] != p[i] {
            assert(s@.subrange(0, p@.len() as int)[i as int] != p@[i as int]);
            return false;
        }
        i = i + 1;
    }
    assert(s@.subrange(0, p@.len() as int) =~= p@);
    true
}

/// The first character of `s` is `c`.
pub open spec fn starts_with_char(s: Seq<char>, c: char) -> bool {
    s.len() > 0 && s[0] == c
}

/// `s` with one trailing carriage return removed.
pub open spec fn strip_cr(s: Seq<char>) -> Seq<char> {
    if s.len() > 0 && s[s.len() - 1] == '\r' {
        s.subrange(0, s.len() - 1)
    } else {
        s
    }
}

/// The lines of `s` as `str::lines` gives them: split at each line feed, a
/// carriage return just before a feed dropped, and no empty line after a
/// final feed. A last line that no feed ends is kept as it is.
pub open spec fn lines_of(s: Seq<char>) -> Seq<Seq<char>>
    decreases s.len(),
{
    if s.len() == 0 {
        seq![]
    } else {
        let i = crate::inline::find_char(s, 0, '\n');
        if i >= s.len() {
            seq![s]
        } else if 0 <= i {
            seq![strip_cr(s.subrange(0, i))] + lines_of(s.subrange(i + 1, s.len() as int))
        } else {
            seq![]
        }
    }
}

pub proof fn lemma_find_char_shift(s: Seq<char>, pos: int, j: int, c: char)
    requires
        0 <= pos <= s.len(),
        0 <= j <= s.len() - pos,
    ensures
        crate::inline::find_char(s.subrange(pos, s.len() as int), j, c)
            == crate::inline::find_char(s, pos + j, c) - pos,
    decreases s.len() - pos - j,
{
    if j < s.len() - pos {
        lemma_find_char_shift(s, pos, j + 1, c);
    }
}

/// The lines of `s`, each as its characters.
pub fn lines_exec(s: &Vec<char>) -> (r: Vec<Vec<char>>)
    ensures
        r@.len() == lines_of(s@).len(),
        forall|i: int| 0 <= i < r@.len() ==> #[trigger] r@[i]@ == lines_of(s@)[i],
{
    let mut out: Vec<Vec<char>> = Vec::new();
    let mut pos: usize = 0;
    let ghost mut acc: Seq<Seq<char>> = seq![];
    proof {
        assert(s@.subrange(0, s@.len() as int) =~= s@);
        assert(acc + lines_of(s@) =~= lines_of(s@));
    }
    while pos < s.len()
        invariant
            pos <= s@.len(),
            lines_of(s@) == acc + lines_of(s@.subrange(pos as int, s@.len() as int)),
            acc.len() == out@.len(),
            forall|k: int| 0 <= k < out@.len() ==> #[trigger] out@[k]@ == acc[k],
        decreases s@.len() - pos,
    {
        let ghost rest = s@.subrange(pos as int, s@.len() as int);
        let i = crate::inline::find_char_exec(s, pos, '\n');
        proof {
            crate::inline::lemma_find_char(s@, pos as int, '\n');
            lemma_find_char_shift(s@, pos as int, 0, '\n');
        }
        let mut line = slice(s, pos, i);
        if i < s.len() && line.len() > 0 && line[line.len() - 1] == '\r' {
            line.pop();
        }
        proof {
            if i >= s@.len() {
                assert(rest.subrange(0, i - pos) =~= rest);
                assert(line@ == rest);
                assert(lines_of(rest) == seq![rest]);
            } else {
                assert(line@ == strip_cr(rest.subrange(0, i - pos)));
                assert(rest.subrange(i - pos + 1, rest.len() as int) =~= s@.subrange(i + 1, s@.len() as int));
            }
        }
        let ghost lv = line@;
        out.push(line);
        proof {
            acc = acc.push(lv);
        }
        if i >= s.len() {
            pos = s.len();
            proof {
                assert(s@.subrange(pos as int, s@.len() as int) =~= Seq::<char>::empty());
                assert(lines_of(s@) =~= acc + lines_of(s@.subrange(pos as int, s@.len() as int)));
            }
        } else {
            pos = i + 1;
            proof {
                assert(lines_of(s@) =~= acc + lines_of(s@.subrange(pos as int, s@.len() as int)));
            }
        }
    }
    proof {
        assert(s@.subrange(pos as int, s@.len() as int) =~= Seq::<char>::empty());
        assert(lines_of(s@) =~= acc);
    }
    out
}

/// The decimal digits of `n`, without leading zeros.
pub open spec fn decimal(n: nat) -> Seq<char>
    decreases n,
{
    if n < 10 {
        seq![digit_char((n % 10) as nat)]
    } else {
        decimal(n / 10).push(digit_char((n % 10) as nat))
    }
}

pub open spec fn digit_char(d: nat) -> char {
    if d == 0 { '0' } else if d == 1 { '1' } else if d == 2 { '2' } else if d == 3 { '3' }
    else if d == 4 { '4' } else if d == 5 { '5' } else if d == 6 { '6' } else if d == 7 { '7' }
    else if d == 8 { '8' } else { '9' }
}

fn digit_exec(d: usize) -> (c: char)
    requires
        d < 10,
    ensures
        c == digit_char(d as nat),
{
    if d == 0 { '0' } else if d == 1 { '1' } else if d == 2 { '2' } else if d == 3 { '3' }
    else if d == 4 { '4' } else if d == 5 { '5' } else if d == 6 { '6' } else if d == 7 { '7' }
    else if d == 8 { '8' } else { '9' }
}

/// The decimal digits of `n`.
pub fn decimal_exec(n: usize) -> (r: Vec<char>)
    ensures
        r@ == decimal(n as nat),
    decreases n,
{
    if n < 10 {
        let mut v: Vec<char> = Vec::new();
        v.push(digit_exec(n));
        v
    } else {
        let mut v = decimal_exec(n / 10);
        v.push(digit_exec(n % 10));
        v
    }
}

/// The pieces of `s` between occurrences of `c`, as `str::split` gives them:
/// one more piece than there are occurrences, empty pieces kept.
pub open spec fn split_on(s: Seq<char>, c: char) -> Seq<Seq<char>>
    decreases s.len(),
{
    let i = crate::inline::find_char(s, 0, c);
    if i >= s.len() || i < 0 {
        seq![s]
    } else {
        seq![s.subrange(0, i)] + split_on(s.subrange(i + 1, s.len() as int), c)
    }
}

/// The pieces of `s` between occurrences of `c`.
pub fn split_exec(s: &Vec<char>, c: char) -> (r: Vec<Vec<char>>)
    ensures
        r@.len() == split_on(s@, c).len(),
        forall|i: int| 0 <= i < r@.len() ==> #[trigger] r@[i]@ == split_on(s@, c)[i],
{
    let mut out: Vec<Vec<char>> = Vec::new();
    let mut pos: usize = 0;
    let ghost mut acc: Seq<Seq<char>> = seq![];
    proof {
        assert(s@.subrange(0, s@.len() as int) =~= s@);
        assert(acc + split_on(s@, c) =~= split_on(s@, c));
    }
    loop
        invariant
            pos <= s@.len(),
            split_on(s@, c) == acc + split_on(s@.subrange(pos as int, s@.len() as int), c),
            acc.len() == out@.len(),
            forall|k: int| 0 <= k < out@.len() ==> #[trigger] out@[k]@ == acc[k],
        decreases s@.len() - pos,
    {
        let ghost rest = s@.subrange(pos as int, s@.len() as int);
        let i = crate::inline::find_char_exec(s, pos, c);
        proof {
            crate::inline::lemma_find_char(s@, pos as int, c);
            lemma_find_char_shift(s@, pos as int, 0, c);
        }
        let piece = slice(s, pos, i);
        let ghost pv = piece@;
        out.push(piece);
        proof {
            acc = acc.push(pv);
        }
        if i >= s.len() {
            proof {
                assert(rest.subrange(0, i - pos) =~= rest);
                assert(split_on(s@, c) =~= acc);
            }
            return out;
        } else {
            proof {
                assert(rest.subrange(i - pos + 1, rest.len() as int) =~= s@.subrange(i + 1, s@.len() as int));
                assert(rest.subrange(0, i - pos) =~= pv);
                assert(split_on(rest, c) == seq![rest.subrange(0, i - pos)] + split_on(rest.subrange(i - pos + 1, rest.len() as int), c));
                assert(split_on(s@, c) =~= acc + split_on(s@.subrange(i + 1, s@.len() as int), c));
            }
            pos = i + 1;
        }
    }
}

/// Number of spaces (not other whitespace) at the start of `s`, from `from` on.
pub open spec fn leading_spaces_from(s: Seq<char>, from: int) -> int
    decreases s.len() - from,
{
    if from < 0 || from >= s.len() || s[from] != ' ' {
        0
    } else {
        1 + leading_spaces_from(s, from + 1)
    }
}

pub open spec fn leading_spaces(s: Seq<char>) -> int {
    leading_spaces_from(s, 0)
}

pub proof fn lemma_leading_spaces_bound(s: Seq<char>)
    ensures
        0 <= leading_spaces(s) <= s.len(),
{
    lemma_leading_spaces_from_bound(s, 0);
}

proof fn lemma_leading_spaces_from_bound(s: Seq<char>, from: int)
    requires
        0 <= from,
    ensures
        0 <= leading_spaces_from(s, from),
        from <= s.len() ==> leading_spaces_from(s, from) <= s.len() - from,
    decreases s.len() - from,
{
    if from < s.len() && s[from] == ' ' {
        lemma_leading_spaces_from_bound(s, from + 1);
    }
}

pub fn leading_spaces_exec(s: &Vec<char>) -> (r: usize)
    ensures
        r == leading_spaces(s@),
        r <= s@.len(),
{
    let mut i: usize = 0;
    while i < s.len() && s[i] == ' '
        invariant
            i <= s@.len(),
            leading_spaces_from(s@, 0) == i + leading_spaces_from(s@, i as int),
        decreases s@.len() - i,
    {
        i = i + 1;
    }
    i
}

/// Number of times `c` repeats at the start of `s`, from `from` on.
pub open spec fn run_of(s: Seq<char>, from: int, c: char) -> int
    decreases s.len() - from,
{
    if from < 0 || from >= s.len() || s[from] != c {
        0
    } else {
        1 + run_of(s, from + 1, c)
    }
}

pub fn run_of_exec(s: &Vec<char>, from: usize, c: char) -> (r: usize)
    requires
        from <= s@.len(),
    ensures
        r == run_of(s@, from as int, c),
        from + r <= s@.len(),
{
    let mut i: usize = from;
    while i < s.len() && s[i] == c
        invariant
            from <= i <= s@.len(),
            run_of(s@, from as int, c) == (i - from) + run_of(s@, i as int, c),
        decreases s@.len() - i,
    {
        i = i + 1;
    }
    i - from
}

/// `s` with the pieces of `parts` joined by `sep`.
pub open spec fn join(parts: Seq<Seq<char>>, sep: Seq<char>) -> Seq<char>
    decreases parts.len(),
{
    if parts.len() == 0 {
        seq![]
    } else if parts.len() == 1 {
        parts[0]
    } else {
        join(parts.drop_last(), sep) + sep + parts.last()
    }
}

/// Appends `sep` (unless `count`, the number of pieces already joined, is 0) and then `piece`.
pub fn join_push(out: &mut Vec<char>, count: usize, sep: &Vec<char>, piece: &Vec<char>)
    ensures
        count == 0 ==> final(out)@ == old(out)@ + piece@,
        count > 0 ==> final(out)@ == old(out)@ + sep@ + piece@,
{
    if count > 0 {
        let mut i: usize = 0;
        let ghost o = out@;
        while i < sep.len()
            invariant
                i <= sep@.len(),
                out@ == o + sep@.subrange(0, i as int),
            decreases sep@.len() - i,
        {
            out.push(sep[i]);
            i = i + 1;
            proof { assert(out@ =~= o + sep@.subrange(0, i as int)); }
        }
        proof { assert(sep@.subrange(0, sep@.len() as int) =~= sep@); }
    }
    let ghost o2 = out@;
    let mut j: usize = 0;
    while j < piece.len()
        invariant
            j <= piece@.len(),
            out@ == o2 + piece@.subrange(0, j as int),
        decreases piece@.len() - j,
    {
        out.push(piece[j]);
        j = j + 1;
        proof { assert(out@ =~= o2 + piece@.subrange(0, j as int)); }
    }
    proof { assert(piece@.subrange(0, piece@.len() as int) =~= piece@); }
}

pub open spec fn views(parts: Seq<Vec<char>>) -> Seq<Seq<char>> {
    parts.map_values(|v: Vec<char>| v@)
}

/// The pieces of `parts` joined by `sep`.
pub fn join_exec(parts: &Vec<Vec<char>>, sep: &Vec<char>) -> (r: Vec<char>)
    ensures
        r@ == join(views(parts@), sep@),
{
    let mut out: Vec<char> = Vec::new();
    let mut k: usize = 0;
    while k < parts.len()
        invariant
            k <= parts@.len(),
            out@ == join(views(parts@).subrange(0, k as int), sep@),
        decreases parts@.len() - k,
    {
        let ghost before = views(parts@).subrange(0, k as int);
        join_push(&mut out, k, sep, &parts[k]);
        proof {
            let after = views(parts@).subrange(0, k + 1);
            assert(after.drop_last() =~= before);
            if k == 0 {
                assert(join(after, sep@) == after[0]);
            }
        }
        k = k + 1;
    }
    proof {
        assert(views(parts@).subrange(0, k as int) =~= views(parts@));
    }
    out
}

} // verus!
