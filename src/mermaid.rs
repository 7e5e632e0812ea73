//! Mermaid diagrams: the `%%{init: ...}%%` directive, merging it over the
//! configured defaults, and a structural check of the diagram's body.
use vstd::prelude::*;
use crate::ast::{MermaidConfig, ValidationStatus};
use crate::config::MermaidParserConfig;
use crate::inline::{find_char, find_char_exec, lemma_find_char};
use crate::text::{
    chars_of, is_ws, is_ws_char, join, join_exec, join_push, lines_exec, lines_of, skip_ws, skip_ws_exec, views,
    lemma_skip_ws_bounds, slice, starts_with, string_of, trim, trim_exec, trim_start,
    trim_start_exec,
};

verus! {

/// `pat` occurs in `s` at `i`.
pub open spec fn occurs_at(s: Seq<char>, pat: Seq<char>, i: int) -> bool {
    0 <= i && i + pat.len() <= s.len() && s.subrange(i, i + pat.len()) == pat
}

/// First index at or after `from` where `pat` occurs in `s`, or `s.len()`.
pub open spec fn find_sub(s: Seq<char>, pat: Seq<char>, from: int) -> int
    decreases s.len() - from,
{
    if from < 0 || from >= s.len() {
        s.len() as int
    } else if occurs_at(s, pat, from) {
        from
    } else {
        find_sub(s, pat, from + 1)
    }
}

pub proof fn lemma_find_sub(s: Seq<char>, pat: Seq<char>, from: int)
    requires
        0 <= from,
    ensures
        from <= find_sub(s, pat, from) <= s.len() || (from > s.len() && find_sub(s, pat, from) == s.len()),
        find_sub(s, pat, from) < s.len() ==> occurs_at(s, pat, find_sub(s, pat, from)),
    decreases s.len() - from,
{
    if from < s.len() && !occurs_at(s, pat, from) {
        lemma_find_sub(s, pat, from + 1);
    }
}

fn occurs_at_exec(s: &Vec<char>, pat: &Vec<char>, i: usize) -> (r: bool)
    ensures
        r == occurs_at(s@, pat@, i as int),
{
    if i > s.len() || pat.len() > s.len() - i {
        return false;
    }
    let n = s.len();
    let mut k: usize = 0;
    while k < pat.len()
        invariant
            n == s@.len(),
            i + pat@.len() <= s@.len(),
            k <= pat@.len(),
            forall|j: int| 0 <= j < k ==> s@[i + j] == pat@[j],
        decreases pat@.len() - k,
    {
        if s[i + k] != pat[k] {
            assert(s@.subrange(i as int, i + pat@.len())[k as int] != pat@[k as int]);
            return false;
        }
        k = k + 1;
    }
    assert(s@.subrange(i as int, i + pat@.len()) =~= pat@);
    true
}

fn find_sub_exec(s: &Vec<char>, pat: &Vec<char>, from: usize) -> (r: usize)
    requires
        from <= s@.len(),
    ensures
        r == find_sub(s@, pat@, from as int),
{
    let mut i = from;
    while i < s.len() && !occurs_at_exec(s, pat, i)
        invariant
            from <= i <= s@.len(),
            find_sub(s@, pat@, i as int) == find_sub(s@, pat@, from as int),
        decreases s@.len() - i,
    {
        i = i + 1;
    }
    i
}

pub open spec fn is_quote(c: char) -> bool {
    c == '\'' || c == '"'
}

/// First index at or after `from` holding a quote of either kind, or `s.len()`.
pub open spec fn find_quote(s: Seq<char>, from: int) -> int
    decreases s.len() - from,
{
    if from < 0 || from >= s.len() {
        s.len() as int
    } else if is_quote(s[from]) {
        from
    } else {
        find_quote(s, from + 1)
    }
}

fn find_quote_exec(s: &Vec<char>, from: usize) -> (r: usize)
    requires
        from <= s@.len(),
    ensures
        r == find_quote(s@, from as int),
        from <= r <= s@.len(),
{
    let mut i = from;
    while i < s.len() && s[i] != '\'' && s[i] != '"'
        invariant
            from <= i <= s@.len(),
            find_quote(s@, i as int) == find_quote(s@, from as int),
        decreases s@.len() - i,
    {
        i = i + 1;
    }
    i
}

/// The three spellings of a key-value pair that the directive reader accepts:
/// `'key': 'value'`, `"key": "value"`, and `key: 'value'` with quotes of
/// either kind (an optional quote may follow the key).
pub enum KeyStyle {
    Single,
    Double,
    Bare,
}

/// The key of `key` written in style `st`.
pub open spec fn styled_key(key: Seq<char>, st: KeyStyle) -> Seq<char> {
    match st {
        KeyStyle::Single => seq!['\''] + key + seq!['\''],
        KeyStyle::Double => seq!['"'] + key + seq!['"'],
        KeyStyle::Bare => key,
    }
}

/// The value of the pair in style `st` whose key starts at `p`, as the range
/// of its characters: the key, whitespace, `:`, whitespace, an opening quote,
/// at least one character that is not a quote, a closing quote.
pub open spec fn pair_at(s: Seq<char>, p: int, key: Seq<char>, st: KeyStyle) -> Option<(int, int)> {
    let k = styled_key(key, st);
    if !occurs_at(s, k, p) {
        None
    } else {
        let q0 = p + k.len();
        let q1 = if st is Bare && q0 < s.len() && is_quote(s[q0]) {
            q0 + 1
        } else {
            q0
        };
        let c = skip_ws(s, q1);
        if c < s.len() && s[c] == ':' {
            let o = skip_ws(s, c + 1);
            if o < s.len() && (match st {
                KeyStyle::Single => s[o] == '\'',
                KeyStyle::Double => s[o] == '"',
                KeyStyle::Bare => is_quote(s[o]),
            }) {
                let v1 = match st {
                    KeyStyle::Single => find_char(s, o + 1, '\''),
                    KeyStyle::Double => find_char(s, o + 1, '"'),
                    KeyStyle::Bare => find_quote(s, o + 1),
                };
                if v1 < s.len() && v1 > o + 1 {
                    Some((o + 1, v1))
                } else {
                    None
                }
            } else {
                None
            }
        } else {
            None
        }
    }
}

/// The leftmost pair in style `st` whose key starts at or after `from`.
pub open spec fn first_pair(s: Seq<char>, from: int, key: Seq<char>, st: KeyStyle) -> Option<(int, int)>
    decreases s.len() - from,
{
    if from < 0 || from >= s.len() {
        None
    } else if pair_at(s, from, key, st) is Some {
        pair_at(s, from, key, st)
    } else {
        first_pair(s, from + 1, key, st)
    }
}

/// The value given to `key` in `s`: the first spelling that occurs wins,
/// tried in the order single-quoted, double-quoted, bare key.
pub open spec fn string_value(s: Seq<char>, key: Seq<char>) -> Option<Seq<char>> {
    let a = first_pair(s, 0, key, KeyStyle::Single);
    let b = first_pair(s, 0, key, KeyStyle::Double);
    let c = first_pair(s, 0, key, KeyStyle::Bare);
    match a {
        Some((x, y)) => Some(s.subrange(x, y)),
        None => match b {
            Some((x, y)) => Some(s.subrange(x, y)),
            None => match c {
                Some((x, y)) => Some(s.subrange(x, y)),
                None => None,
            },
        },
    }
}

proof fn lemma_pair_at(s: Seq<char>, p: int, key: Seq<char>, st: KeyStyle)
    requires
        0 <= p,
    ensures
        pair_at(s, p, key, st) matches Some(r) ==> 0 <= r.0 <= r.1 <= s.len(),
{
    let k = styled_key(key, st);
    if occurs_at(s, k, p) {
        let q0 = p + k.len();
        let q1 = if st is Bare && q0 < s.len() && is_quote(s[q0]) {
            q0 + 1
        } else {
            q0
        };
        lemma_skip_ws_bounds(s, q1);
        let c = skip_ws(s, q1);
        if c < s.len() && s[c] == ':' {
            lemma_skip_ws_bounds(s, c + 1);
            let o = skip_ws(s, c + 1);
            if o < s.len() {
                lemma_find_char(s, o + 1, '\'');
                lemma_find_char(s, o + 1, '"');
            }
        }
    }
}

proof fn lemma_first_pair(s: Seq<char>, from: int, key: Seq<char>, st: KeyStyle)
    requires
        0 <= from,
    ensures
        first_pair(s, from, key, st) matches Some(r) ==> 0 <= r.0 <= r.1 <= s.len(),
    decreases s.len() - from,
{
    if from < s.len() {
        lemma_pair_at(s, from, key, st);
        if pair_at(s, from, key, st) is None {
            lemma_first_pair(s, from + 1, key, st);
        }
    }
}

fn pair_at_exec(s: &Vec<char>, p: usize, key: &Vec<char>, st: &KeyStyle) -> (r: Option<(usize, usize)>)
    requires
        p <= s@.len(),
    ensures
        match r {
            Some(x) => pair_at(s@, p as int, key@, *st) == Some((x.0 as int, x.1 as int)),
            None => pair_at(s@, p as int, key@, *st) is None,
        },
{
    let mut k: Vec<char> = Vec::new();
    match st {
        KeyStyle::Single => {
            k.push('\'');
        },
        KeyStyle::Double => {
            k.push('"');
        },
        KeyStyle::Bare => {},
    }
    join_push(&mut k, 0, key, key);
    match st {
        KeyStyle::Single => {
            k.push('\'');
        },
        KeyStyle::Double => {
            k.push('"');
        },
        KeyStyle::Bare => {},
    }
    proof {
        assert(k@ =~= styled_key(key@, *st));
    }
    let len = s.len();
    if !occurs_at_exec(s, &k, p) {
        return None;
    }
    let q0 = p + k.len();
    let bare = match st {
        KeyStyle::Bare => true,
        _ => false,
    };
    let q1 = if bare && q0 < len && (s[q0] == '\'' || s[q0] == '"') {
        q0 + 1
    } else {
        q0
    };
    let c = skip_ws_exec(s, q1);
    proof { lemma_skip_ws_bounds(s@, q1 as int); }
    if !(c < s.len() && s[c] == ':') {
        return None;
    }
    let o = skip_ws_exec(s, c + 1);
    proof { lemma_skip_ws_bounds(s@, c + 1); }
    if o >= s.len() {
        return None;
    }
    let opens = match st {
        KeyStyle::Single => s[o] == '\'',
        KeyStyle::Double => s[o] == '"',
        KeyStyle::Bare => s[o] == '\'' || s[o] == '"',
    };
    if !opens {
        return None;
    }
    let v1 = match st {
        KeyStyle::Single => find_char_exec(s, o + 1, '\''),
        KeyStyle::Double => find_char_exec(s, o + 1, '"'),
        KeyStyle::Bare => find_quote_exec(s, o + 1),
    };
    if v1 < s.len() && v1 > o + 1 {
        Some((o + 1, v1))
    } else {
        None
    }
}

fn first_pair_exec(s: &Vec<char>, key: &Vec<char>, st: &KeyStyle) -> (r: Option<(usize, usize)>)
    ensures
        match r {
            Some(x) => first_pair(s@, 0, key@, *st) == Some((x.0 as int, x.1 as int)),
            None => first_pair(s@, 0, key@, *st) is None,
        },
{
    let mut p: usize = 0;
    while p < s.len()
        invariant
            p <= s@.len(),
            first_pair(s@, p as int, key@, *st) == first_pair(s@, 0, key@, *st),
        decreases s@.len() - p,
    {
        let r = pair_at_exec(s, p, key, st);
        if r.is_some() {
            return r;
        }
        p = p + 1;
    }
    None
}

/// The value that `s` gives to `key`, if any (see `string_value`).
pub fn extract_string_value(s: &Vec<char>, key: &Vec<char>) -> (r: Option<Vec<char>>)
    ensures
        match r {
            Some(v) => string_value(s@, key@) == Some(v@),
            None => string_value(s@, key@) is None,
        },
{
    let a = first_pair_exec(s, key, &KeyStyle::Single);
    proof {
        lemma_first_pair(s@, 0, key@, KeyStyle::Single);
        lemma_first_pair(s@, 0, key@, KeyStyle::Double);
        lemma_first_pair(s@, 0, key@, KeyStyle::Bare);
    }
    if let Some((x, y)) = a {
        return Some(slice(s, x, y));
    }
    let b = first_pair_exec(s, key, &KeyStyle::Double);
    if let Some((x, y)) = b {
        return Some(slice(s, x, y));
    }
    let c = first_pair_exec(s, key, &KeyStyle::Bare);
    if let Some((x, y)) = c {
        return Some(slice(s, x, y));
    }
    None
}

/// Where the `}` that closes the `{` of `t` at index 0 stands, scanning from
/// `i` with `depth` braces open.
pub open spec fn brace_close(t: Seq<char>, i: int, depth: int) -> Option<int>
    decreases t.len() - i,
{
    if i < 0 || i >= t.len() {
        None
    } else if t[i] == '{' {
        brace_close(t, i + 1, depth + 1)
    } else if t[i] == '}' {
        if depth - 1 == 0 {
            Some(i)
        } else {
            brace_close(t, i + 1, depth - 1)
        }
    } else {
        brace_close(t, i + 1, depth)
    }
}

proof fn lemma_brace_close(t: Seq<char>, i: int, depth: int)
    requires
        0 <= i,
    ensures
        brace_close(t, i, depth) matches Some(c) ==> i <= c < t.len(),
    decreases t.len() - i,
{
    if i < t.len() {
        if t[i] == '{' {
            lemma_brace_close(t, i + 1, depth + 1);
        } else if t[i] == '}' {
            if depth - 1 != 0 {
                lemma_brace_close(t, i + 1, depth - 1);
            }
        } else {
            lemma_brace_close(t, i + 1, depth);
        }
    }
}

/// What the first balanced `{...}` of the trimmed `s` holds, if the trimmed
/// `s` starts with `{` and the brace closes.
pub open spec fn object_body(s: Seq<char>) -> Option<Seq<char>> {
    let t = trim(s);
    if t.len() > 0 && t[0] == '{' {
        match brace_close(t, 0, 0) {
            Some(c) => Some(t.subrange(1, c)),
            None => None,
        }
    } else {
        None
    }
}

pub fn extract_object(s: &Vec<char>) -> (r: Option<Vec<char>>)
    ensures
        match r {
            Some(v) => object_body(s@) == Some(v@),
            None => object_body(s@) is None,
        },
{
    let t = trim_exec(s);
    if t.len() == 0 || t[0] != '{' {
        return None;
    }
    let mut i: usize = 0;
    let mut depth: usize = 0;
    while i < t.len()
        invariant
            i <= t@.len(),
            depth <= i,
            t@ == trim(s@),
            t@.len() > 0 && t@[0] == '{',
            i > 0 ==> depth >= 1,
            brace_close(t@, i as int, depth as int) == brace_close(t@, 0, 0),
        decreases t@.len() - i,
    {
        if t[i] == '{' {
            depth = depth + 1;
        } else if t[i] == '}' {
            if depth == 1 {
                proof { lemma_brace_close(t@, 0, 0); }
                return Some(slice(&t, 1, i));
            }
            if depth == 0 {
                return None;
            }
            depth = depth - 1;
        }
        i = i + 1;
    }
    None
}

/// The settings of a Mermaid diagram as plain values.
pub struct ConfigV {
    pub theme: Option<Seq<char>>,
    pub font_size: Option<Seq<char>>,
    pub font_family: Option<Seq<char>>,
    pub theme_variables: Option<Seq<(Seq<char>, Seq<char>)>>,
}

pub open spec fn opt_str(o: Option<String>) -> Option<Seq<char>> {
    match o {
        Some(x) => Some(x@),
        None => None,
    }
}

pub open spec fn pairs_view(v: Seq<(String, String)>) -> Seq<(Seq<char>, Seq<char>)> {
    v.map_values(|p: (String, String)| (p.0@, p.1@))
}

impl MermaidConfig {
    pub open spec fn view(&self) -> ConfigV {
        ConfigV {
            theme: opt_str(self.theme),
            font_size: opt_str(self.font_size),
            font_family: opt_str(self.font_family),
            theme_variables: match self.theme_variables {
                Some(v) => Some(pairs_view(v@)),
                None => None,
            },
        }
    }
}

/// The part of the directive that the theme variables are read from: what
/// follows `themeVariables` (an optional quote, whitespace, a colon), reduced
/// to the body of its braces when it opens one.
pub open spec fn variables_region(init: Seq<char>, q: int) -> Seq<char> {
    let r = init.subrange(q, init.len() as int);
    let r1 = if r.len() > 0 && is_quote(r[0]) {
        r.subrange(1, r.len() as int)
    } else {
        r
    };
    let r2 = trim_start(r1);
    let r3 = if r2.len() > 0 && r2[0] == ':' {
        trim_start(r2.subrange(1, r2.len() as int))
    } else {
        r2
    };
    match object_body(r3) {
        Some(b) => b,
        None => r3,
    }
}

/// The theme variables found: `fontSize` then `fontFamily`, those present.
pub open spec fn found_vars(fs: Option<Seq<char>>, ff: Option<Seq<char>>) -> Seq<(Seq<char>, Seq<char>)> {
    let a: Seq<(Seq<char>, Seq<char>)> = match fs {
        Some(v) => seq![("fontSize"@, v)],
        None => seq![],
    };
    match ff {
        Some(v) => a.push(("fontFamily"@, v)),
        None => a,
    }
}

/// No two pairs of `v` have the same key.
pub open spec fn distinct_keys(v: Seq<(Seq<char>, Seq<char>)>) -> bool {
    forall|i: int, j: int| 0 <= i < j < v.len() ==> (#[trigger] v[i]).0 != (#[trigger] v[j]).0
}

/// The theme variables that a directive gives hold each key at most once.
pub proof fn lemma_directive_keys_distinct(fm: Seq<char>)
    ensures
        directive_config(fm) matches Some(c) ==> (c.theme_variables matches Some(v) ==> distinct_keys(v)),
{
    reveal_strlit("fontSize");
    reveal_strlit("fontFamily");
    assert("fontSize"@.len() != "fontFamily"@.len());
}

/// The settings that a directive `%%{init: ...}%%` gives, if it is an `init`
/// directive that sets at least one of them.
pub open spec fn directive_config(fm: Seq<char>) -> Option<ConfigV> {
    let content = fm.subrange(3, fm.len() - 3);
    let c = trim_start(content);
    if !starts_with(c, "init:"@) {
        None
    } else {
        let init = trim(c.subrange(5, c.len() as int));
        let theme = string_value(init, "theme"@);
        let p = find_sub(init, "themeVariables"@, 0);
        let region = variables_region(init, p + 14);
        let fs = if p < init.len() {
            string_value(region, "fontSize"@)
        } else {
            None
        };
        let ff = if p < init.len() {
            string_value(region, "fontFamily"@)
        } else {
            None
        };
        let vars = found_vars(fs, ff);
        if theme is None && fs is None && ff is None {
            None
        } else {
            Some(
                ConfigV {
                    theme,
                    font_size: fs,
                    font_family: ff,
                    theme_variables: if vars.len() > 0 {
                        Some(vars)
                    } else {
                        None
                    },
                },
            )
        }
    }
}

pub open spec fn opt_chars(o: Option<Vec<char>>) -> Option<Seq<char>> {
    match o {
        Some(v) => Some(v@),
        None => None,
    }
}

fn opt_string(o: Option<Vec<char>>) -> (r: Option<String>)
    ensures
        opt_str(r) == opt_chars(o),
{
    match o {
        Some(v) => Some(string_of(&v)),
        None => None,
    }
}

fn directive_config_exec(fm: &Vec<char>) -> (r: Option<MermaidConfig>)
    requires
        fm@.len() >= 6,
    ensures
        match r {
            Some(c) => directive_config(fm@) == Some(c.view()),
            None => directive_config(fm@) is None,
        },
{
    let content = slice(fm, 3, fm.len() - 3);
    let c = trim_start_exec(&content);
    let init_kw = chars_of("init:");
    if !crate::text::starts_with_exec(&c, &init_kw) {
        return None;
    }
    proof { reveal_strlit("init:"); }
    let init = trim_exec(&slice(&c, 5, c.len()));
    let theme = extract_string_value(&init, &chars_of("theme"));
    let p = find_sub_exec(&init, &chars_of("themeVariables"), 0);
    proof {
        lemma_find_sub(init@, "themeVariables"@, 0);
        reveal_strlit("themeVariables");
    }
    let mut fs: Option<Vec<char>> = None;
    let mut ff: Option<Vec<char>> = None;
    if p < init.len() {
        let q = p + 14;
        let r = slice(&init, q, init.len());
        let r1 = if r.len() > 0 && (r[0] == '\'' || r[0] == '"') {
            slice(&r, 1, r.len())
        } else {
            r
        };
        let r2 = trim_start_exec(&r1);
        let r3 = if r2.len() > 0 && r2[0] == ':' {
            trim_start_exec(&slice(&r2, 1, r2.len()))
        } else {
            r2
        };
        let region = match extract_object(&r3) {
            Some(b) => b,
            None => r3,
        };
        assert(region@ == variables_region(init@, p + 14));
        fs = extract_string_value(&region, &chars_of("fontSize"));
        ff = extract_string_value(&region, &chars_of("fontFamily"));
    }
    if theme.is_none() && fs.is_none() && ff.is_none() {
        return None;
    }
    let mut vars: Vec<(String, String)> = Vec::new();
    match &fs {
        Some(v) => {
            vars.push(("fontSize".to_string(), string_of(v)));
        },
        None => {},
    }
    match &ff {
        Some(v) => {
            vars.push(("fontFamily".to_string(), string_of(v)));
        },
        None => {},
    }
    proof {
        assert(pairs_view(vars@) =~= found_vars(opt_chars(fs), opt_chars(ff)));
    }
    let theme_variables = if vars.len() > 0 {
        Some(vars)
    } else {
        None
    };
    Some(
        MermaidConfig {
            theme: opt_string(theme),
            font_size: opt_string(fs),
            font_family: opt_string(ff),
            theme_variables,
        },
    )
}

/// The settings of the directive on `line`, if the trimmed line starts with
/// `%%{`, holds a `}%%`, and what runs up to that `}%%` is a directive giving
/// settings.
pub open spec fn directive_on(line: Seq<char>) -> Option<ConfigV> {
    let t = trim(line);
    if starts_with(t, "%%{"@) {
        let e = find_sub(t, "}%%"@, 0);
        if e < t.len() {
            directive_config(t.subrange(0, e + 3))
        } else {
            None
        }
    } else {
        None
    }
}

/// Which of the first two lines holds the directive, if either does.
pub open spec fn directive_line(lines: Seq<Seq<char>>) -> Option<int> {
    if lines.len() > 0 && directive_on(lines[0]) is Some {
        Some(0)
    } else if lines.len() > 1 && directive_on(lines[1]) is Some {
        Some(1)
    } else {
        None
    }
}

fn directive_on_exec(line: &Vec<char>) -> (r: Option<MermaidConfig>)
    ensures
        match r {
            Some(c) => directive_on(line@) == Some(c.view()),
            None => directive_on(line@) is None,
        },
{
    let t = trim_exec(line);
    let open = chars_of("%%{");
    if !crate::text::starts_with_exec(&t, &open) {
        return None;
    }
    let close = chars_of("}%%");
    let e = find_sub_exec(&t, &close, 0);
    proof {
        lemma_find_sub(t@, "}%%"@, 0);
        reveal_strlit("}%%");
        reveal_strlit("%%{");
    }
    if e >= t.len() {
        return None;
    }
    proof {
        assert(t@.subrange(0, 3) == "%%{"@);
        assert(t@.subrange(e as int, e + 3)[0] == '}');
        assert(t@[e as int] == '}');
        assert(t@.subrange(0, 3)[0] == '%' && t@.subrange(0, 3)[1] == '%' && t@.subrange(0, 3)[2] == '{');
    }
    directive_config_exec(&slice(&t, 0, e + 3))
}

/// `ls[0..k]` without the element at `idx` (when `idx < k`).
pub open spec fn without(ls: Seq<Seq<char>>, idx: int, k: int) -> Seq<Seq<char>> {
    if idx < k {
        ls.subrange(0, k).remove(idx)
    } else {
        ls.subrange(0, k)
    }
}

/// Reads the `%%{init: ...}%%` directive from the first two lines of a
/// diagram's body. Where one gives settings, its line is removed and the rest
/// of the body, trimmed, is returned with them; otherwise the body unchanged.
pub fn parse_frontmatter(body: &Vec<char>) -> (r: (Option<MermaidConfig>, Vec<char>))
    ensures
        match directive_line(lines_of(body@)) {
            Some(i) => {
                &&& r.0 matches Some(c) && directive_on(lines_of(body@)[i]) == Some(c.view())
                &&& r.1@ == trim(join(lines_of(body@).remove(i), "\n"@))
            },
            None => r.0 is None && r.1@ == body@,
        },
        r.0 matches Some(c) ==> (c.theme_variables matches Some(v) ==> distinct_keys(pairs_view(v@))),
{
    let lines = lines_exec(body);
    let ghost ls = lines_of(body@);
    let mut found: Option<(usize, MermaidConfig)> = None;
    if lines.len() > 0 {
        match directive_on_exec(&lines[0]) {
            Some(c) => {
                found = Some((0, c));
            },
            None => {},
        }
    }
    if found.is_none() && lines.len() > 1 {
        match directive_on_exec(&lines[1]) {
            Some(c) => {
                found = Some((1, c));
            },
            None => {},
        }
    }
    match found {
        Some((idx, c)) => {
            let mut rest: Vec<Vec<char>> = Vec::new();
            let mut k: usize = 0;
            while k < lines.len()
                invariant
                    k <= lines@.len(),
                    idx < lines@.len(),
                    lines@.len() == ls.len(),
                    forall|j: int| 0 <= j < lines@.len() ==> #[trigger] lines@[j]@ == ls[j],
                    views(rest@) == without(ls, idx as int, k as int),
                decreases lines@.len() - k,
            {
                let ghost before = views(rest@);
                if k != idx {
                    let piece = slice(&lines[k], 0, lines[k].len());
                    proof {
                        assert(lines@[k as int]@.subrange(0, lines@[k as int]@.len() as int) =~= lines@[k as int]@);
                    }
                    let ghost pv = piece@;
                    let ghost old_rest = rest@;
                    rest.push(piece);
                    proof {
                        assert(rest@ == old_rest.push(piece));
                        assert(views(rest@).last() == pv);
                        assert(views(rest@) =~= before.push(ls[k as int]));
                    }
                }
                proof {
                    if idx < k {
                        assert(ls.subrange(0, k + 1).remove(idx as int) =~= ls.subrange(0, k as int).remove(idx as int).push(ls[k as int]));
                    } else if idx > k {
                        assert(ls.subrange(0, k + 1) =~= ls.subrange(0, k as int).push(ls[k as int]));
                    } else {
                        assert(ls.subrange(0, k + 1).remove(idx as int) =~= ls.subrange(0, k as int));
                    }
                }
                k = k + 1;
            }
            let joined = join_exec(&rest, &chars_of("\n"));
            proof {
                assert(ls.subrange(0, ls.len() as int) =~= ls);
            }
            proof {
                let t = trim(ls[idx as int]);
                lemma_directive_keys_distinct(t.subrange(0, find_sub(t, "}%%"@, 0) + 3));
            }
            (Some(c), trim_exec(&joined))
        },
        None => (None, slice(body, 0, body.len())),
    }
}

/// The settings of a diagram: each field of its directive's settings where
/// set, else the configured default; theme variables only from the directive.
pub open spec fn merged(d: MermaidParserConfig, inline: Option<ConfigV>) -> ConfigV {
    match inline {
        Some(c) => ConfigV {
            theme: if c.theme is Some { c.theme } else { Some(d.default_theme@) },
            font_size: if c.font_size is Some { c.font_size } else { Some(d.default_font_size@) },
            font_family: if c.font_family is Some { c.font_family } else { Some(d.default_font_family@) },
            theme_variables: c.theme_variables,
        },
        None => ConfigV {
            theme: Some(d.default_theme@),
            font_size: Some(d.default_font_size@),
            font_family: Some(d.default_font_family@),
            theme_variables: None,
        },
    }
}

fn copy_string(s: &String) -> (r: String)
    ensures
        r@ == s@,
{
    s.clone()
}

fn or_default(o: Option<String>, d: &String) -> (r: Option<String>)
    ensures
        opt_str(r) == if o is Some { opt_str(o) } else { Some(d@) },
{
    match o {
        Some(x) => Some(x),
        None => Some(copy_string(d)),
    }
}

/// Merges a diagram's own settings over the configured defaults.
pub fn merge_config(default: &MermaidParserConfig, inline: Option<MermaidConfig>) -> (r: MermaidConfig)
    ensures
        r.view() == merged(
            *default,
            match inline {
                Some(c) => Some(c.view()),
                None => None,
            },
        ),
{
    match inline {
        Some(c) => MermaidConfig {
            theme: or_default(c.theme, &default.default_theme),
            font_size: or_default(c.font_size, &default.default_font_size),
            font_family: or_default(c.font_family, &default.default_font_family),
            theme_variables: c.theme_variables,
        },
        None => MermaidConfig {
            theme: Some(copy_string(&default.default_theme)),
            font_size: Some(copy_string(&default.default_font_size)),
            font_family: Some(copy_string(&default.default_font_family)),
            theme_variables: None,
        },
    }
}

/// The diagram kinds that a body may start with.
pub open spec fn diagram_types() -> Seq<Seq<char>> {
    seq![
        "graph"@,
        "flowchart"@,
        "sequenceDiagram"@,
        "classDiagram"@,
        "stateDiagram"@,
        "stateDiagram-v2"@,
        "erDiagram"@,
        "journey"@,
        "gantt"@,
        "pie"@,
        "requirementDiagram"@,
        "gitgraph"@,
        "mindmap"@,
        "timeline"@,
        "C4Context"@,
        "C4Container"@,
        "C4Component"@,
    ]
}

fn diagram_type(i: usize) -> (r: &'static str)
    requires
        i < 17,
    ensures
        r@ == diagram_types()[i as int],
{
    match i {
        0 => "graph",
        1 => "flowchart",
        2 => "sequenceDiagram",
        3 => "classDiagram",
        4 => "stateDiagram",
        5 => "stateDiagram-v2",
        6 => "erDiagram",
        7 => "journey",
        8 => "gantt",
        9 => "pie",
        10 => "requirementDiagram",
        11 => "gitgraph",
        12 => "mindmap",
        13 => "timeline",
        14 => "C4Context",
        15 => "C4Container",
        _ => "C4Component",
    }
}

/// The first line of `t` starts with a known diagram kind.
pub open spec fn has_known_type(t: Seq<char>) -> bool {
    let first = trim(t.subrange(0, find_char(t, 0, '\n')));
    exists|i: int| 0 <= i < diagram_types().len() && starts_with(first, #[trigger] diagram_types()[i])
}

/// Counts of open `(`, `[`, `{` after scanning `s` from `i`, and which kind
/// of closing bracket (0, 1, 2) first went below zero, where the scan stops.
pub open spec fn scan_brackets(s: Seq<char>, i: int, p: int, b: int, c: int) -> (int, int, int, Option<int>)
    decreases s.len() - i,
{
    if i < 0 || i >= s.len() {
        (p, b, c, None)
    } else if s[i] == '(' {
        scan_brackets(s, i + 1, p + 1, b, c)
    } else if s[i] == ')' {
        if p - 1 < 0 { (p - 1, b, c, Some(0)) } else { scan_brackets(s, i + 1, p - 1, b, c) }
    } else if s[i] == '[' {
        scan_brackets(s, i + 1, p, b + 1, c)
    } else if s[i] == ']' {
        if b - 1 < 0 { (p, b - 1, c, Some(1)) } else { scan_brackets(s, i + 1, p, b - 1, c) }
    } else if s[i] == '{' {
        scan_brackets(s, i + 1, p, b, c + 1)
    } else if s[i] == '}' {
        if c - 1 < 0 { (p, b, c - 1, Some(2)) } else { scan_brackets(s, i + 1, p, b, c - 1) }
    } else {
        scan_brackets(s, i + 1, p, b, c)
    }
}

pub open spec fn closing_message(k: int) -> Seq<char> {
    if k == 0 {
        "Unmatched closing parenthesis"@
    } else if k == 1 {
        "Unmatched closing bracket"@
    } else {
        "Unmatched closing brace"@
    }
}

pub open spec fn opt_msg(cond: bool, m: Seq<char>) -> Seq<Seq<char>> {
    if cond { seq![m] } else { seq![] }
}

/// The bracket errors of `t`: an unmatched closing bracket (where the scan
/// stops), then the counts of opening brackets left unclosed.
pub open spec fn bracket_errors(t: Seq<char>) -> Seq<Seq<char>> {
    let r = scan_brackets(t, 0, 0, 0, 0);
    (match r.3 { Some(k) => seq![closing_message(k)], None => seq![] })
        + opt_msg(r.0 > 0, crate::text::decimal(r.0 as nat) + " unmatched opening parenthesis(es)"@)
        + opt_msg(r.1 > 0, crate::text::decimal(r.1 as nat) + " unmatched opening bracket(s)"@)
        + opt_msg(r.2 > 0, crate::text::decimal(r.2 as nat) + " unmatched opening brace(s)"@)
}

/// The error for a body whose first line names no known diagram kind.
pub const TYPE_MESSAGE: &'static str = "Invalid or missing diagram type. Expected one of: graph, flowchart, sequenceDiagram, classDiagram, stateDiagram, stateDiagram-v2, erDiagram, journey, gantt, pie, requirementDiagram, gitgraph, mindmap, timeline, C4Context, C4Container, C4Component";

pub open spec fn type_message() -> Seq<char> {
    TYPE_MESSAGE@
}

/// `n` warnings about an arrow with nothing on one side.
pub open spec fn arrow_warnings(n: nat) -> Seq<Seq<char>> {
    Seq::new(n, |k: int| "Arrow may be missing node on one side"@)
}

/// The errors that the external tool's outcome adds.
pub open spec fn tool_errors(tool: Option<Option<Vec<String>>>) -> Seq<Seq<char>> {
    match tool {
        Some(Some(e)) => strs(e@),
        _ => seq![],
    }
}

/// The warning that the external tool's outcome adds.
pub open spec fn tool_warnings(tool: Option<Option<Vec<String>>>) -> Seq<Seq<char>> {
    match tool {
        Some(None) => seq!["Mermaid CLI not available, using basic validation only"@],
        _ => seq![],
    }
}

/// The errors that the checks of the trimmed, non-empty body `t` find.
pub open spec fn syntax_errors(t: Seq<char>) -> Seq<Seq<char>> {
    opt_msg(!has_known_type(t), type_message()) + bracket_errors(t)
}

pub open spec fn all_ws(s: Seq<char>, a: int, b: int) -> bool {
    forall|j: int| a <= j < b ==> is_ws(#[trigger] s[j])
}

pub open spec fn arrow_at(s: Seq<char>, i: int) -> bool {
    occurs_at(s, "-->"@, i) || occurs_at(s, "==>"@, i) || occurs_at(s, "---"@, i)
}

/// How many arrows (`-->`, `==>`, `---`, found left to right without overlap)
/// from `i` on have nothing but whitespace before or after them in `s`.
pub open spec fn dangling_arrows(s: Seq<char>, i: int) -> nat
    decreases s.len() + 3 - i,
{
    if i < 0 || i >= s.len() {
        0
    } else if arrow_at(s, i) {
        (if all_ws(s, 0, i) || all_ws(s, i + 3, s.len() as int) { 1nat } else { 0nat }) + dangling_arrows(s, i + 3)
    } else {
        dangling_arrows(s, i + 1)
    }
}

pub open spec fn strs(v: Seq<String>) -> Seq<Seq<char>> {
    v.map_values(|x: String| x@)
}

fn has_known_type_exec(t: &Vec<char>) -> (r: bool)
    ensures
        r == has_known_type(t@),
{
    let nl = find_char_exec(t, 0, '\n');
    proof { lemma_find_char(t@, 0, '\n'); }
    let first = trim_exec(&slice(t, 0, nl));
    let mut i: usize = 0;
    while i < 17
        invariant
            i <= 17,
            diagram_types().len() == 17,
            first@ == trim(t@.subrange(0, find_char(t@, 0, '\n'))),
            forall|j: int| 0 <= j < i ==> !starts_with(first@, #[trigger] diagram_types()[j]),
        decreases 17 - i,
    {
        let ty = chars_of(diagram_type(i));
        if crate::text::starts_with_exec(&first, &ty) {
            return true;
        }
        i = i + 1;
    }
    false
}

fn push_message(out: &mut Vec<String>, m: String)
    ensures
        strs(final(out)@) == strs(old(out)@).push(m@),
{
    out.push(m);
    proof { assert(strs(final(out)@) =~= strs(old(out)@).push(m@)); }
}

fn counted_message(n: usize, tail: &str) -> (r: String)
    ensures
        r@ == crate::text::decimal(n as nat) + tail@,
{
    let mut v = crate::text::decimal_exec(n);
    let mut t = chars_of(tail);
    v.append(&mut t);
    string_of(&v)
}

fn bracket_errors_exec(t: &Vec<char>) -> (r: Vec<String>)
    ensures
        strs(r@) == bracket_errors(t@),
{
    let mut p: usize = 0;
    let mut b: usize = 0;
    let mut c: usize = 0;
    let mut closing: Option<usize> = None;
    let mut i: usize = 0;
    while i < t.len()
        invariant_except_break
            closing is None,
        invariant
            i <= t@.len(),
            p <= i && b <= i && c <= i,
            scan_brackets(t@, i as int, p as int, b as int, c as int) == scan_brackets(t@, 0, 0, 0, 0),
        ensures
            closing is None ==> scan_brackets(t@, 0, 0, 0, 0) == (p as int, b as int, c as int, None::<int>),
            closing matches Some(k) ==> {
                let r = scan_brackets(t@, 0, 0, 0, 0);
                &&& r.3 == Some(k as int)
                &&& k <= 2
                &&& (k == 0 ==> r.1 == b && r.2 == c && r.0 < 0)
                &&& (k == 1 ==> r.0 == p && r.2 == c && r.1 < 0)
                &&& (k == 2 ==> r.0 == p && r.1 == b && r.2 < 0)
            },
        decreases t@.len() - i,
    {
        let ch = t[i];
        if ch == '(' {
            p = p + 1;
        } else if ch == ')' {
            if p == 0 {
                closing = Some(0);
                break;
            }
            p = p - 1;
        } else if ch == '[' {
            b = b + 1;
        } else if ch == ']' {
            if b == 0 {
                closing = Some(1);
                break;
            }
            b = b - 1;
        } else if ch == '{' {
            c = c + 1;
        } else if ch == '}' {
            if c == 0 {
                closing = Some(2);
                break;
            }
            c = c - 1;
        }
        i = i + 1;
    }
    let mut out: Vec<String> = Vec::new();
    let ghost r = scan_brackets(t@, 0, 0, 0, 0);
    match closing {
        Some(k) => {
            if k == 0 {
                out.push("Unmatched closing parenthesis".to_string());
                p = 0;
            } else if k == 1 {
                out.push("Unmatched closing bracket".to_string());
                b = 0;
            } else {
                out.push("Unmatched closing brace".to_string());
                c = 0;
            }
        },
        None => {},
    }
    let ghost e0 = strs(out@);
    proof {
        assert(e0 =~= (match r.3 { Some(k) => seq![closing_message(k)], None => seq![] }));
    }
    if p > 0 {
        push_message(&mut out, counted_message(p, " unmatched opening parenthesis(es)"));
    }
    let ghost e1 = strs(out@);
    proof {
        assert(e1 =~= e0 + opt_msg(r.0 > 0, crate::text::decimal(r.0 as nat) + " unmatched opening parenthesis(es)"@));
    }
    if b > 0 {
        push_message(&mut out, counted_message(b, " unmatched opening bracket(s)"));
    }
    let ghost e2 = strs(out@);
    proof {
        assert(e2 =~= e1 + opt_msg(r.1 > 0, crate::text::decimal(r.1 as nat) + " unmatched opening bracket(s)"@));
    }
    if c > 0 {
        push_message(&mut out, counted_message(c, " unmatched opening brace(s)"));
    }
    proof {
        assert(strs(out@) =~= e2 + opt_msg(r.2 > 0, crate::text::decimal(r.2 as nat) + " unmatched opening brace(s)"@));
    }
    out
}

fn all_ws_exec(s: &Vec<char>, a: usize, b: usize) -> (r: bool)
    requires
        a <= b <= s@.len(),
    ensures
        r == all_ws(s@, a as int, b as int),
{
    let mut j = a;
    while j < b
        invariant
            a <= j <= b <= s@.len(),
            forall|k: int| a <= k < j ==> is_ws(#[trigger] s@[k]),
        decreases b - j,
    {
        if !is_ws_char(s[j]) {
            return false;
        }
        j = j + 1;
    }
    true
}

fn dangling_arrows_exec(s: &Vec<char>) -> (r: usize)
    ensures
        r == dangling_arrows(s@, 0),
{
    let a1 = chars_of("-->");
    let a2 = chars_of("==>");
    let a3 = chars_of("---");
    proof {
        reveal_strlit("-->");
        reveal_strlit("==>");
        reveal_strlit("---");
    }
    let n = s.len();
    let mut count: usize = 0;
    let mut i: usize = 0;
    while i < s.len()
        invariant
            n == s@.len(),
            i <= s@.len(),
            count <= i,
            a1@ == "-->"@ && a2@ == "==>"@ && a3@ == "---"@,
            a1@.len() == 3 && a2@.len() == 3 && a3@.len() == 3,
            count + dangling_arrows(s@, i as int) == dangling_arrows(s@, 0),
        decreases s@.len() + 3 - i,
    {
        if occurs_at_exec(s, &a1, i) || occurs_at_exec(s, &a2, i) || occurs_at_exec(s, &a3, i) {
            if all_ws_exec(s, 0, i) || all_ws_exec(s, i + 3, s.len()) {
                count = count + 1;
            }
            i = i + 3;
        } else {
            i = i + 1;
        }
    }
    proof {
        if i > s@.len() {
            assert(dangling_arrows(s@, i as int) == 0);
        }
    }
    count
}

/// `status` and `warnings` are the outcome of checking `diagram` (see
/// `validate_syntax`), the external tool having given `tool`.
pub open spec fn validation_result(
    diagram: Seq<char>,
    tool: Option<Option<Vec<String>>>,
    status: ValidationStatus,
    warnings: Seq<String>,
) -> bool {
    let t = trim(diagram);
    if t.len() == 0 {
        (status matches ValidationStatus::Invalid { errors } && strs(errors@) == seq![
            "Mermaid diagram is empty"@,
        ]) && warnings.len() == 0
    } else {
        let errs = syntax_errors(t) + tool_errors(tool);
        &&& errs.len() == 0 ==> status is Valid
        &&& errs.len() > 0 ==> (status matches ValidationStatus::Invalid { errors } && strs(errors@)
            == errs)
        &&& strs(warnings) == arrow_warnings(dangling_arrows(t, 0)) + tool_warnings(tool)
    }
}

/// Checks the body of a diagram. An empty body (once trimmed) is invalid for
/// that alone. Otherwise the errors are, in order: an unknown diagram kind on
/// the first line, the bracket errors, and what the external tool reported;
/// each arrow with nothing on one side gives a warning. `tool` is what the
/// external tool gave on the trimmed body: `None` where it was not asked,
/// `Some(None)` where it could not be run (a warning), `Some(Some(errors))`
/// where it ran. The diagram is valid exactly when there is no error.
pub fn validate_syntax(diagram: &Vec<char>, tool: Option<Option<Vec<String>>>) -> (r: (ValidationStatus, Vec<String>))
    ensures
        validation_result(diagram@, tool, r.0, r.1@),
{
    let t = trim_exec(diagram);
    let mut warnings: Vec<String> = Vec::new();
    let mut errors: Vec<String> = Vec::new();
    if t.len() == 0 {
        errors.push("Mermaid diagram is empty".to_string());
        proof { assert(strs(errors@) =~= seq!["Mermaid diagram is empty"@]); }
        return (ValidationStatus::Invalid { errors }, warnings);
    }
    if !has_known_type_exec(&t) {
        errors.push(TYPE_MESSAGE.to_string());
    }
    let ghost e0 = strs(errors@);
    proof { assert(e0 =~= opt_msg(!has_known_type(t@), type_message())); }
    let mut be = bracket_errors_exec(&t);
    let ghost bev = strs(be@);
    errors.append(&mut be);
    let ghost e1 = strs(errors@);
    proof { assert(e1 =~= e0 + bev); }
    let n = dangling_arrows_exec(&t);
    let mut k: usize = 0;
    proof { assert(strs(warnings@) =~= arrow_warnings(0)); }
    while k < n
        invariant
            k <= n,
            strs(warnings@) == arrow_warnings(k as nat),
        decreases n - k,
    {
        let ghost w = warnings@;
        warnings.push("Arrow may be missing node on one side".to_string());
        proof {
            assert(strs(warnings@) =~= strs(w).push("Arrow may be missing node on one side"@));
            assert(arrow_warnings((k + 1) as nat) =~= arrow_warnings(k as nat).push("Arrow may be missing node on one side"@));
        }
        k = k + 1;
    }
    let ghost w0 = strs(warnings@);
    match tool {
        Some(Some(extra)) => {
            let mut extra = extra;
            let ghost xe = strs(extra@);
            errors.append(&mut extra);
            proof {
                assert(strs(errors@) =~= e1 + xe);
                assert(strs(warnings@) =~= w0 + seq![]);
            }
        },
        Some(None) => {
            warnings.push("Mermaid CLI not available, using basic validation only".to_string());
            proof {
                assert(strs(warnings@) =~= w0 + seq!["Mermaid CLI not available, using basic validation only"@]);
                assert(strs(errors@) =~= e1 + seq![]);
            }
        },
        None => {
            proof {
                assert(strs(errors@) =~= e1 + seq![]);
                assert(strs(warnings@) =~= w0 + seq![]);
            }
        },
    }
    if errors.len() == 0 {
        (ValidationStatus::Valid, warnings)
    } else {
        (ValidationStatus::Invalid { errors }, warnings)
    }
}

} // verus!
