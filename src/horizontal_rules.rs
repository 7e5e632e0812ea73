//! Thematic breaks: a line of three or more `-` or `*`.
use vstd::prelude::*;
use crate::text::{chars_of, is_ws, is_ws_char, trim, trim_exec};

verus! {

/// The trimmed line is at least three characters long, starts with three `-`
/// or three `*`, and holds nothing but that character and whitespace.
pub open spec fn is_horizontal_rule(line: Seq<char>) -> bool {
    let t = trim(line);
    &&& t.len() >= 3
    &&& (t[0] == '-' || t[0] == '*')
    &&& t[1] == t[0] && t[2] == t[0]
    &&& forall|i: int| 0 <= i < t.len() ==> (#[trigger] t[i] == t[0] || is_ws(t[i]))
}

pub fn horizontal_rule_chars(line: &Vec<char>) -> (r: bool)
    ensures
        r == is_horizontal_rule(line@),
{
    let t = trim_exec(line);
    if t.len() < 3 {
        return false;
    }
    let c = t[0];
    if c != '-' && c != '*' {
        return false;
    }
    if t[1] != c || t[2] != c {
        return false;
    }
    let mut i: usize = 0;
    while i < t.len()
        invariant
            t@ == trim(line@),
            i <= t@.len(),
            c == t@[0],
            forall|k: int| 0 <= k < i ==> (#[trigger] t@[k] == c || is_ws(t@[k])),
        decreases t@.len() - i,
    {
        if t[i] != c && !is_ws_char(t[i]) {
            return false;
        }
        i = i + 1;
    }
    true
}

/// Whether `line` is a horizontal rule (`---`, `***`, possibly with spaces).
pub fn detect_horizontal_rule(line: &str) -> (r: bool)
    ensures
        r == is_horizontal_rule(line@),
{
    let v = chars_of(line);
    horizontal_rule_chars(&v)
}

} // verus!
