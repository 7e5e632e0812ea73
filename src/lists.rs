//! Lists: classifying list lines, and rebuilding the item tree from the
//! indentation of a flat run of lines.
use vstd::prelude::*;
use crate::ast::{Inline, ListItem};
use crate::text::{
    chars_of, lemma_skip_ws_bounds, leading_spaces, leading_spaces_exec, skip_ws, skip_ws_exec, slice,
    starts_with, starts_with_char, starts_with_exec, trim, trim_exec,
};

verus! {

/// What a list line holds: its depth (leading spaces / 2), its marker, its
/// text, and for a task item whether it is done.
pub struct ListLine {
    pub indent: usize,
    pub marker: char,
    pub content: Vec<char>,
    pub checked: Option<bool>,
}

/// What an ordered list line holds: its depth, its number and its text.
pub struct OrderedLine {
    pub indent: usize,
    pub number: u32,
    pub content: Vec<char>,
}

pub open spec fn is_bullet(c: char) -> bool {
    c == '-' || c == '*' || c == '+'
}

/// A task box `[ ]`, `[x]` or `[X]` at `a` in `s`; `Some(done)` if there is one.
pub open spec fn task_box(s: Seq<char>, a: int) -> Option<bool> {
    if a + 3 <= s.len() && s[a] == '[' && s[a + 2] == ']' {
        if s[a + 1] == ' ' {
            Some(false)
        } else if s[a + 1] == 'x' || s[a + 1] == 'X' {
            Some(true)
        } else {
            None
        }
    } else {
        None
    }
}

/// Position of the bullet of an unordered list line: the first character
/// that is not whitespace, which must be `-`, `*` or `+` followed by a space.
pub open spec fn bullet_pos(line: Seq<char>) -> int {
    skip_ws(line, 0)
}

pub open spec fn is_list_line(line: Seq<char>) -> bool {
    let m = bullet_pos(line);
    m + 1 < line.len() && is_bullet(line[m]) && line[m + 1] == ' '
}

/// The task state and the text of an unordered list line (given that it is one).
/// An item whose text starts with a task box followed by a space or by the
/// end of the line is a task item.
pub open spec fn list_line_task(line: Seq<char>) -> (Option<bool>, Seq<char>) {
    let m = bullet_pos(line);
    let a = m + 2;
    if m + 4 <= line.len() && task_box(line, a) is Some && (a + 3
        == line.len() || line[a + 3] == ' ') {
        if a + 3 == line.len() {
            (task_box(line, a), seq![])
        } else {
            (task_box(line, a), trim(line.subrange(a + 4, line.len() as int)))
        }
    } else {
        (None, trim(line.subrange(a, line.len() as int)))
    }
}

/// Classifies `line` as an unordered list item, if it is one.
pub fn detect_list_line(line: &Vec<char>) -> (r: Option<ListLine>)
    ensures
        r is Some <==> is_list_line(line@),
        r matches Some(l) ==> {
            &&& l.indent == leading_spaces(line@) / 2
            &&& l.indent < usize::MAX
            &&& l.marker == line@[bullet_pos(line@)]
            &&& (l.checked, l.content@) == list_line_task(line@)
        },
{
    let m = skip_ws_exec(line, 0);
    proof { lemma_skip_ws_bounds(line@, 0); }
    if !(m < line.len() && m + 1 < line.len()) {
        return None;
    }
    let marker = line[m];
    if !(marker == '-' || marker == '*' || marker == '+') || line[m + 1] != ' ' {
        return None;
    }
    let indent = leading_spaces_exec(line) / 2;
    let a = m + 2;
    let n = line.len();
    if n - m >= 5 && line[a] == '[' && line[a + 2] == ']' {
        let inner = line[a + 1];
        let done = if inner == ' ' {
            Some(false)
        } else if inner == 'x' || inner == 'X' {
            Some(true)
        } else {
            None
        };
        if done.is_some() {
            if a + 3 == n {
                return Some(ListLine { indent, marker, content: Vec::new(), checked: done });
            } else if line[a + 3] == ' ' {
                let rest = slice(line, a + 4, n);
                return Some(ListLine { indent, marker, content: trim_exec(&rest), checked: done });
            }
        }
    }
    let rest = slice(line, a, n);
    Some(ListLine { indent, marker, content: trim_exec(&rest), checked: None })
}

pub open spec fn is_digit(c: char) -> bool {
    '0' <= c && c <= '9'
}

/// Number of digits at `from` in `s`.
pub open spec fn digit_run(s: Seq<char>, from: int) -> int
    decreases s.len() - from,
{
    if from < 0 || from >= s.len() || !is_digit(s[from]) {
        0
    } else {
        1 + digit_run(s, from + 1)
    }
}

/// The number that `s[from..to]` writes in decimal.
pub open spec fn digits_value(s: Seq<char>, from: int, to: int) -> nat
    decreases to - from,
{
    if to <= from {
        0
    } else {
        digits_value(s, from, to - 1) * 10 + ((s[to - 1] as u32 - '0' as u32) as nat)
    }
}

pub open spec fn is_ordered_line(line: Seq<char>) -> bool {
    let m = skip_ws(line, 0);
    let e = m + digit_run(line, m);
    &&& e > m
    &&& e + 2 <= line.len()
    &&& line[e] == '.'
    &&& line[e + 1] == ' '
    &&& digits_value(line, m, e) <= u32::MAX
}

/// Where the digits of an ordered list line end.
pub open spec fn ordered_digits_end(line: Seq<char>) -> int {
    skip_ws(line, 0) + digit_run(line, skip_ws(line, 0))
}

/// Classifies `line` as an ordered list item (`N. text`), if it is one. A
/// number too large for 32 bits does not make an item.
pub fn detect_ordered_list_line(line: &Vec<char>) -> (r: Option<OrderedLine>)
    ensures
        r is Some <==> is_ordered_line(line@),
        r matches Some(l) ==> {
            &&& l.indent == leading_spaces(line@) / 2
            &&& l.indent < usize::MAX
            &&& l.number == digits_value(line@, skip_ws(line@, 0), ordered_digits_end(line@))
            &&& l.content@ == trim(line@.subrange(ordered_digits_end(line@) + 2, line@.len() as int))
        },
{
    let m = skip_ws_exec(line, 0);
    proof { lemma_skip_ws_bounds(line@, 0); }
    let mut e = m;
    let mut value: u64 = 0;
    let mut over = false;
    while e < line.len() && '0' <= line[e] && line[e] <= '9'
        invariant
            m <= e <= line@.len(),
            digit_run(line@, m as int) == (e - m) + digit_run(line@, e as int),
            !over ==> value == digits_value(line@, m as int, e as int) && value <= u32::MAX,
            over ==> digits_value(line@, m as int, e as int) > u32::MAX,
        decreases line@.len() - e,
    {
        let d = (line[e] as u32 - '0' as u32) as u64;
        if !over {
            let nv = value * 10 + d;
            if nv > u32::MAX as u64 {
                over = true;
            } else {
                value = nv;
            }
        }
        e = e + 1;
    }
    if e == m || !(e < line.len() && e + 1 < line.len()) || line[e] != '.' || line[e + 1] != ' '
        || over {
        return None;
    }
    let indent = leading_spaces_exec(line) / 2;
    let rest = slice(line, e + 2, line.len());
    Some(OrderedLine { indent, number: value as u32, content: trim_exec(&rest) })
}

/// An indented, non-blank line that is not itself a list item, a heading or
/// a fence: it continues the text of the last item.
pub open spec fn is_continuation_line(line: Seq<char>) -> bool {
    &&& trim(line).len() > 0
    &&& leading_spaces(line) > 0
    &&& !is_list_line(line)
    &&& !is_ordered_line(line)
    &&& !starts_with_char(trim(line), '#')
    &&& !starts_with(trim(line), "```"@)
}

/// The depth of a continuation line, if `line` is one.
pub fn detect_continuation_line(line: &Vec<char>) -> (r: Option<usize>)
    ensures
        r is Some <==> is_continuation_line(line@),
        r matches Some(d) ==> d == leading_spaces(line@) / 2,
{
    let t = trim_exec(line);
    if t.len() == 0 {
        return None;
    }
    let n = leading_spaces_exec(line);
    if n == 0 {
        return None;
    }
    if detect_list_line(line).is_some() || detect_ordered_list_line(line).is_some() {
        return None;
    }
    let fence = chars_of("```");
    if t[0] == '#' || starts_with_exec(&t, &fence) {
        return None;
    }
    Some(n / 2)
}

/// The rightmost path of `items` (the last item, its last child, and so on)
/// is at least `k` items long.
pub open spec fn spine_has(items: Seq<ListItem>, k: nat) -> bool
    decreases k,
{
    k == 0 || (items.len() > 0 && spine_has(items.last().children@, (k - 1) as nat))
}

/// `new` is `old` with `item` appended at depth `d`: at depth 0 to `old`
/// itself, deeper to the children of the item at depth `d - 1` on the
/// rightmost path. Nothing else changes.
pub open spec fn attached(old: Seq<ListItem>, new: Seq<ListItem>, d: nat, item: ListItem) -> bool
    decreases d,
{
    if d == 0 {
        new == old.push(item)
    } else {
        &&& old.len() > 0
        &&& new.len() == old.len()
        &&& new.drop_last() == old.drop_last()
        &&& new.last().content == old.last().content
        &&& new.last().checked == old.last().checked
        &&& attached(old.last().children@, new.last().children@, (d - 1) as nat, item)
    }
}

/// `new` is `old` with the item at depth `k - 1` on the rightmost path given
/// `extra` at the end of its text, after a one-space text element if it
/// already had text. Nothing else changes.
pub open spec fn tip_extended(old: Seq<ListItem>, new: Seq<ListItem>, k: nat, extra: Seq<Inline>) -> bool
    decreases k,
{
    &&& k >= 1
    &&& old.len() > 0
    &&& new.len() == old.len()
    &&& new.drop_last() == old.drop_last()
    &&& new.last().checked == old.last().checked
    &&& if k == 1 {
        let oc = old.last().content@;
        let nc = new.last().content@;
        &&& new.last().children == old.last().children
        &&& if oc.len() == 0 {
            nc == extra
        } else {
            &&& nc.len() == oc.len() + 1 + extra.len()
            &&& nc.subrange(0, oc.len() as int) == oc
            &&& crate::inline::is_text(nc[oc.len() as int], " "@)
            &&& nc.subrange(oc.len() as int + 1, nc.len() as int) == extra
        }
    } else {
        &&& new.last().content == old.last().content
        &&& tip_extended(old.last().children@, new.last().children@, (k - 1) as nat, extra)
    }
}

/// Appends `item` at depth `d` (see `attached`); it becomes the end of the
/// rightmost path.
pub fn attach(items: &mut Vec<ListItem>, d: usize, item: ListItem)
    requires
        spine_has(old(items)@, d as nat),
    ensures
        attached(old(items)@, final(items)@, d as nat, item),
        spine_has(final(items)@, d as nat + 1),
    decreases d,
{
    if d == 0 {
        items.push(item);
        proof {
            assert(items@.last() == item);
            assert(spine_has(item.children@, 0));
        }
    } else {
        let mut last = items.pop().unwrap();
        attach(&mut last.children, d - 1, item);
        let ghost lc = last.children@;
        items.push(last);
        proof {
            assert(items@.drop_last() =~= old(items)@.drop_last());
            assert(items@.last().children@ == lc);
            assert(spine_has(lc, d as nat));
        }
    }
}

/// Gives the item at depth `k - 1` on the rightmost path `extra` at the end of
/// its text (see `tip_extended`).
pub fn extend_tip(items: &mut Vec<ListItem>, k: usize, extra: Vec<Inline>)
    requires
        k >= 1,
        spine_has(old(items)@, k as nat),
    ensures
        tip_extended(old(items)@, final(items)@, k as nat, extra@),
        spine_has(final(items)@, k as nat),
    decreases k,
{
    let mut last = items.pop().unwrap();
    if k == 1 {
        let ghost oc = last.content@;
        if last.content.len() > 0 {
            last.content.push(Inline::Text { content: " ".to_string() });
        }
        let mut extra = extra;
        let ghost ex = extra@;
        last.content.append(&mut extra);
        proof {
            if oc.len() > 0 {
                assert(last.content@.subrange(0, oc.len() as int) =~= oc);
                assert(last.content@.subrange(oc.len() as int + 1, last.content@.len() as int) =~= ex);
            } else {
                assert(last.content@ =~= ex);
            }
        }
    } else {
        extend_tip(&mut last.children, k - 1, extra);
    }
    items.push(last);
    proof {
        assert(items@.drop_last() =~= old(items)@.drop_last());
    }
}

/// A line that ends any list: blank, or starting a heading or a fence.
pub open spec fn ends_list(line: Seq<char>, fence: Seq<char>) -> bool {
    trim(line).len() == 0 || starts_with_char(trim(line), '#') || starts_with(trim(line), fence)
}

pub fn ends_list_exec(line: &Vec<char>, fence: &Vec<char>) -> (r: bool)
    ensures
        r == ends_list(line@, fence@),
{
    let t = trim_exec(line);
    t.len() == 0 || t[0] == '#' || starts_with_exec(&t, fence)
}

/// Where an item of depth `d` goes when the rightmost path is `k` items long:
/// under the item at depth `d - 1` if there is one, else (depth 0, or an
/// indentation that skips a level) at the top.
pub open spec fn placement(d: nat, k: nat) -> nat {
    if d >= 1 && d <= k {
        d
    } else {
        0
    }
}

/// Puts `item` where `placement` says and returns the new length of the
/// rightmost path.
fn place(items: &mut Vec<ListItem>, k: usize, d: usize, item: ListItem) -> (nk: usize)
    requires
        spine_has(old(items)@, k as nat),
        d < usize::MAX,
    ensures
        attached(old(items)@, final(items)@, placement(d as nat, k as nat), item),
        nk == placement(d as nat, k as nat) + 1,
        spine_has(final(items)@, nk as nat),
{
    if d >= 1 && d <= k {
        proof { lemma_spine_has_shorter(old(items)@, k as nat, d as nat); }
        attach(items, d, item);
        d + 1
    } else {
        attach(items, 0, item);
        1
    }
}

pub proof fn lemma_spine_has_shorter(items: Seq<ListItem>, k: nat, j: nat)
    requires
        spine_has(items, k),
        j <= k,
    ensures
        spine_has(items, j),
    decreases j,
{
    if j > 0 {
        lemma_spine_has_shorter(items.last().children@, (k - 1) as nat, (j - 1) as nat);
    }
}

/// `items2` (with a rightmost path `k2` long) is `items` (path `k` long)
/// with a new leaf item of depth `d` placed as `placement` says: no
/// children, task state `checked`, and the inline elements of `text`.
pub open spec fn item_step(
    items: Seq<ListItem>,
    k: nat,
    items2: Seq<ListItem>,
    k2: nat,
    d: nat,
    checked: Option<bool>,
    text: Seq<char>,
) -> bool {
    k2 == placement(d, k) + 1 && exists|it: ListItem|
        #[trigger] attached(items, items2, placement(d, k), it) && it.children@.len() == 0
            && it.checked == checked && crate::inline::inline_parse(text, it.content@)
}

/// `items2` is `items` with the inline elements of the trimmed `line` added to
/// the text of the last item; a continuation with no item before it is dropped.
pub open spec fn continuation_step(line: Seq<char>, items: Seq<ListItem>, k: nat, items2: Seq<ListItem>, k2: nat) -> bool {
    &&& k2 == k
    &&& k == 0 ==> items2 == items
    &&& k >= 1 ==> exists|extra: Seq<Inline>|
        #[trigger] tip_extended(items, items2, k, extra) && crate::inline::inline_parse(trim(line), extra)
}

/// What one line does to the list being built (see `item_step` and
/// `continuation_step`). In an ordered list, an ordered item comes first; an
/// unordered line there can only be a nested item.
pub open spec fn list_step(line: Seq<char>, ordered: bool, items: Seq<ListItem>, k: nat, items2: Seq<ListItem>, k2: nat) -> bool {
    let d = (leading_spaces(line) / 2) as nat;
    if ordered && is_ordered_line(line) {
        item_step(items, k, items2, k2, d, None, trim(line.subrange(ordered_digits_end(line) + 2, line.len() as int)))
    } else if !ordered && is_list_line(line) {
        item_step(items, k, items2, k2, d, list_line_task(line).0, list_line_task(line).1)
    } else if is_continuation_line(line) {
        continuation_step(line, items, k, items2, k2)
    } else {
        item_step(items, k, items2, k2, d, list_line_task(line).0, list_line_task(line).1)
    }
}

/// The step of line `start + j` in the history `hist`/`ks`.
pub open spec fn step_at(lines: Seq<Vec<char>>, start: int, ordered: bool, hist: Seq<Seq<ListItem>>, ks: Seq<nat>, j: int) -> bool {
    list_step(lines[start + j]@, ordered, hist[j], ks[j], hist[j + 1], ks[j + 1])
}

/// `hist` and `ks` are the lists (and rightmost path lengths) after each line
/// of `lines[start..end]`, starting from an empty list.
pub open spec fn list_history(lines: Seq<Vec<char>>, start: int, end: int, ordered: bool, hist: Seq<Seq<ListItem>>, ks: Seq<nat>) -> bool {
    &&& hist.len() == end - start + 1
    &&& ks.len() == end - start + 1
    &&& hist[0] == Seq::<ListItem>::empty()
    &&& ks[0] == 0
    &&& forall|j: int| 0 <= j < end - start ==> #[trigger] step_at(lines, start, ordered, hist, ks, j)
}

/// `node` and `next` are what parsing the unordered list at `start` gives: the
/// lines up to `next` are its items and continuation lines, the line at
/// `next` (if any) ends it, and its items are what those lines build.
pub open spec fn unordered_list_result(lines: Seq<Vec<char>>, start: int, fence: Seq<char>, node: crate::ast::Node, next: int) -> bool {
    &&& start < next <= lines.len()
    &&& forall|j: int| start <= j < next ==> !ends_list(#[trigger] lines[j]@, fence) && (is_list_line(lines[j]@)
        || is_continuation_line(lines[j]@))
    &&& next < lines.len() ==> ends_list(lines[next]@, fence) || (!is_list_line(lines[next]@)
        && !is_continuation_line(lines[next]@))
    &&& node matches crate::ast::Node::UnorderedList { items } && exists|hist: Seq<Seq<ListItem>>, ks: Seq<nat>|
        #[trigger] list_history(lines, start, next, false, hist, ks) && hist.last() == items@
}

/// `node` and `next` are what parsing the ordered list at `start` gives (see
/// `unordered_list_result`); nested unordered items belong to it.
pub open spec fn ordered_list_result(lines: Seq<Vec<char>>, start: int, fence: Seq<char>, node: crate::ast::Node, next: int) -> bool {
    &&& start < next <= lines.len()
    &&& forall|j: int| start <= j < next ==> !ends_list(#[trigger] lines[j]@, fence) && (is_ordered_line(lines[j]@)
        || is_continuation_line(lines[j]@) || (is_list_line(lines[j]@) && leading_spaces(lines[j]@) >= 2))
    &&& node matches crate::ast::Node::OrderedList { items } && exists|hist: Seq<Seq<ListItem>>, ks: Seq<nat>|
        #[trigger] list_history(lines, start, next, true, hist, ks) && hist.last() == items@
            && (next < lines.len() ==> ordered_list_stops(lines[next]@, fence, ks.last()))
}

/// A line that ends an ordered list whose rightmost path is `k` items long:
/// one that ends any list, or one that is neither an ordered item, a
/// continuation, nor an unordered item with a parent at the depth above it.
pub open spec fn ordered_list_stops(line: Seq<char>, fence: Seq<char>, k: nat) -> bool {
    ends_list(line, fence) || (!is_ordered_line(line) && !is_continuation_line(line) && !(is_list_line(line)
        && 1 <= leading_spaces(line) / 2 <= k))
}

/// Parses the unordered list that starts at line `start`: its items, nested
/// by indentation, and the continuation lines of their text. Returns the list
/// and the index of the first line after it.
pub fn parse_unordered_list(lines: &Vec<Vec<char>>, start: usize, fence: &Vec<char>) -> (r: (
    crate::ast::Node,
    usize,
))
    requires
        start < lines@.len(),
        is_list_line(lines@[start as int]@),
        !ends_list(lines@[start as int]@, fence@),
    ensures
        unordered_list_result(lines@, start as int, fence@, r.0, r.1 as int),
{
    let mut items: Vec<ListItem> = Vec::new();
    let mut k: usize = 0;
    let mut i = start;
    let ghost mut hist: Seq<Seq<ListItem>> = seq![Seq::<ListItem>::empty()];
    let ghost mut ks: Seq<nat> = seq![0nat];
    while i < lines.len()
        invariant
            start <= i <= lines@.len(),
            start < lines@.len(),
            spine_has(items@, k as nat),
            k <= i - start,
            i == start ==> is_list_line(lines@[start as int]@) && !ends_list(lines@[start as int]@, fence@),
            forall|j: int| start <= j < i ==> !ends_list(#[trigger] lines@[j]@, fence@) && (is_list_line(lines@[j]@)
                || is_continuation_line(lines@[j]@)),
            list_history(lines@, start as int, i as int, false, hist, ks),
            hist.last() == items@,
            ks.last() == k,
        ensures
            start < i <= lines@.len(),
            forall|j: int| start <= j < i ==> !ends_list(#[trigger] lines@[j]@, fence@) && (is_list_line(lines@[j]@)
                || is_continuation_line(lines@[j]@)),
            i < lines@.len() ==> ends_list(lines@[i as int]@, fence@) || (!is_list_line(lines@[i as int]@)
                && !is_continuation_line(lines@[i as int]@)),
            list_history(lines@, start as int, i as int, false, hist, ks),
            hist.last() == items@,
        decreases lines@.len() - i,
    {
        let line = &lines[i];
        if ends_list_exec(line, fence) {
            break;
        }
        let ghost before = items@;
        let ghost kb = k as nat;
        match detect_list_line(line) {
            Some(l) => {
                let content = crate::inline::parse_inline_chars(&l.content);
                let item = ListItem { content, children: Vec::new(), checked: l.checked };
                let ghost it = item;
                proof { crate::text::lemma_leading_spaces_bound(line@); }
                k = place(&mut items, k, l.indent, item);
                proof {
                    assert(attached(before, items@, placement(l.indent as nat, kb), it));
                    assert(item_step(before, kb, items@, k as nat, l.indent as nat, list_line_task(line@).0, list_line_task(line@).1));
                }
            },
            None => {
                if detect_continuation_line(line).is_some() {
                    if k >= 1 {
                        let t = trim_exec(line);
                        let extra = crate::inline::parse_inline_chars(&t);
                        let ghost ex = extra@;
                        extend_tip(&mut items, k, extra);
                        proof {
                            assert(tip_extended(before, items@, kb, ex));
                        }
                    }
                    proof {
                        assert(continuation_step(line@, before, kb, items@, k as nat));
                    }
                } else {
                    break;
                }
            },
        }
        proof {
            let hist0 = hist;
            let ks0 = ks;
            hist = hist.push(items@);
            ks = ks.push(k as nat);
            assert(list_step(lines@[i as int]@, false, before, kb, items@, k as nat));
            assert forall|j: int| 0 <= j < i + 1 - start implies #[trigger] step_at(lines@, start as int, false, hist, ks, j) by {
                if j < i - start {
                    assert(step_at(lines@, start as int, false, hist0, ks0, j));
                }
            }
        }
        i = i + 1;
    }
    proof {
        assert(list_history(lines@, start as int, i as int, false, hist, ks));
    }
    (crate::ast::Node::UnorderedList { items }, i)
}

/// Parses the ordered list that starts at line `start`. Unordered items nested
/// under its items belong to it; an unordered item at depth 0, or one without
/// a parent, ends it.
pub fn parse_ordered_list(lines: &Vec<Vec<char>>, start: usize, fence: &Vec<char>) -> (r: (
    crate::ast::Node,
    usize,
))
    requires
        start < lines@.len(),
        is_ordered_line(lines@[start as int]@),
        !ends_list(lines@[start as int]@, fence@),
    ensures
        ordered_list_result(lines@, start as int, fence@, r.0, r.1 as int),
{
    let mut items: Vec<ListItem> = Vec::new();
    let mut k: usize = 0;
    let mut i = start;
    let ghost mut hist: Seq<Seq<ListItem>> = seq![Seq::<ListItem>::empty()];
    let ghost mut ks: Seq<nat> = seq![0nat];
    while i < lines.len()
        invariant
            start <= i <= lines@.len(),
            start < lines@.len(),
            spine_has(items@, k as nat),
            k <= i - start,
            i == start ==> is_ordered_line(lines@[start as int]@) && !ends_list(lines@[start as int]@, fence@),
            forall|j: int| start <= j < i ==> !ends_list(#[trigger] lines@[j]@, fence@) && (is_ordered_line(lines@[j]@)
                || is_continuation_line(lines@[j]@) || (is_list_line(lines@[j]@) && leading_spaces(lines@[j]@) >= 2)),
            list_history(lines@, start as int, i as int, true, hist, ks),
            hist.last() == items@,
            ks.last() == k,
        ensures
            start < i <= lines@.len(),
            forall|j: int| start <= j < i ==> !ends_list(#[trigger] lines@[j]@, fence@) && (is_ordered_line(lines@[j]@)
                || is_continuation_line(lines@[j]@) || (is_list_line(lines@[j]@) && leading_spaces(lines@[j]@) >= 2)),
            i < lines@.len() ==> ordered_list_stops(lines@[i as int]@, fence@, ks.last()),
            list_history(lines@, start as int, i as int, true, hist, ks),
            hist.last() == items@,
        decreases lines@.len() - i,
    {
        let line = &lines[i];
        if ends_list_exec(line, fence) {
            break;
        }
        let ghost before = items@;
        let ghost kb = k as nat;
        match detect_ordered_list_line(line) {
            Some(l) => {
                let content = crate::inline::parse_inline_chars(&l.content);
                let item = ListItem { content, children: Vec::new(), checked: None };
                let ghost it = item;
                proof { crate::text::lemma_leading_spaces_bound(line@); }
                k = place(&mut items, k, l.indent, item);
                proof {
                    assert(attached(before, items@, placement(l.indent as nat, kb), it));
                }
            },
            None => {
                if detect_continuation_line(line).is_some() {
                    if k >= 1 {
                        let t = trim_exec(line);
                        let extra = crate::inline::parse_inline_chars(&t);
                        let ghost ex = extra@;
                        extend_tip(&mut items, k, extra);
                        proof {
                            assert(tip_extended(before, items@, kb, ex));
                        }
                    }
                    proof {
                        assert(continuation_step(line@, before, kb, items@, k as nat));
                    }
                } else {
                    match detect_list_line(line) {
                        Some(l) => {
                            if l.indent == 0 || l.indent > k {
                                break;
                            }
                            let content = crate::inline::parse_inline_chars(&l.content);
                            let item = ListItem { content, children: Vec::new(), checked: l.checked };
                            let ghost it = item;
                            proof { crate::text::lemma_leading_spaces_bound(line@); }
                            k = place(&mut items, k, l.indent, item);
                            proof {
                                assert(attached(before, items@, placement(l.indent as nat, kb), it));
                            }
                        },
                        None => {
                            break;
                        },
                    }
                }
            },
        }
        proof {
            let hist0 = hist;
            let ks0 = ks;
            hist = hist.push(items@);
            ks = ks.push(k as nat);
            assert(list_step(lines@[i as int]@, true, before, kb, items@, k as nat));
            assert forall|j: int| 0 <= j < i + 1 - start implies #[trigger] step_at(lines@, start as int, true, hist, ks, j) by {
                if j < i - start {
                    assert(step_at(lines@, start as int, true, hist0, ks0, j));
                }
            }
        }
        i = i + 1;
    }
    proof {
        assert(list_history(lines@, start as int, i as int, true, hist, ks));
    }
    (crate::ast::Node::OrderedList { items }, i)
}

} // verus!
