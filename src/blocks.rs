//! Headings, paragraphs and blockquotes.
use vstd::prelude::*;
use crate::ast::{Node, ParseError, Span};
use crate::inline::{inline_parse, parse_inline_chars};
use crate::lists::{detect_list_line, detect_ordered_list_line, ends_list, ends_list_exec, is_list_line, is_ordered_line};
use crate::tables::{detect_table_row, is_table_row};
use crate::text::{join, join_push, run_of, run_of_exec, slice, starts_with_char, trim, trim_exec, trim_start, trim_start_exec, chars_of};

verus! {

/// The level reported for a heading of `count` markers when at most `max` are
/// allowed: the count, capped at `max + 1` (and at 255).
pub open spec fn reported_level(count: int, max: u8) -> int {
    let c = if count > max + 1 {
        max + 1
    } else {
        count
    };
    if c > 255 {
        255
    } else {
        c
    }
}

/// The text of a heading line: what follows the `#` markers, trimmed.
pub open spec fn heading_text(t: Seq<char>) -> Seq<char> {
    trim(t.subrange(run_of(t, 0, '#'), t.len() as int))
}

/// Reads a heading from the trimmed line `t` (line number `line_number`): `#`
/// markers, then text. More markers than `max_level` is an error; a line of
/// markers with no text after them is no heading.
pub fn parse_heading(t: &Vec<char>, line_number: usize, max_level: u8) -> (r: Result<
    Option<Node>,
    ParseError,
>)
    ensures
        !starts_with_char(t@, '#') ==> r matches Ok(None),
        starts_with_char(t@, '#') && run_of(t@, 0, '#') > max_level ==> (r matches Err(
            ParseError::InvalidHeadingLevel { level, span },
        ) && level == reported_level(run_of(t@, 0, '#'), max_level) && (level > max_level || max_level == 255)
            && span.line == line_number
            && span.column is None),
        starts_with_char(t@, '#') && run_of(t@, 0, '#') <= max_level && heading_text(t@).len()
            == 0 ==> r matches Ok(None),
        starts_with_char(t@, '#') && run_of(t@, 0, '#') <= max_level && heading_text(t@).len()
            > 0 ==> (r matches Ok(Some(Node::Heading { level, content })) && level == run_of(
            t@,
            0,
            '#',
        ) && inline_parse(heading_text(t@), content@)),
{
    if t.len() == 0 || t[0] != '#' {
        return Ok(None);
    }
    let c = run_of_exec(t, 0, '#');
    if c > max_level as usize {
        let capped: usize = if c > max_level as usize + 1 {
            max_level as usize + 1
        } else {
            c
        };
        let level: u8 = if capped > 255 {
            255
        } else {
            capped as u8
        };
        return Err(
            ParseError::InvalidHeadingLevel {
                level,
                span: Span { line: line_number, column: None },
            },
        );
    }
    let rest = trim_exec(&slice(t, c, t.len()));
    if rest.len() == 0 {
        return Ok(None);
    }
    let content = parse_inline_chars(&rest);
    Ok(Some(Node::Heading { level: c as u8, content }))
}

/// The trimmed lines `lines[a..b]`.
pub open spec fn trimmed_lines(lines: Seq<Vec<char>>, a: int, b: int) -> Seq<Seq<char>> {
    Seq::new((b - a) as nat, |k: int| trim(lines[a + k]@))
}

/// A line that ends a paragraph: blank, a heading, a fence, a list item, a
/// table row or a blockquote line.
pub open spec fn stops_paragraph(line: Seq<char>, fence: Seq<char>) -> bool {
    ends_list(line, fence) || is_list_line(line) || is_ordered_line(line) || is_table_row(line)
        || is_blockquote_line(line)
}

pub fn stops_paragraph_exec(line: &Vec<char>, fence: &Vec<char>) -> (r: bool)
    ensures
        r == stops_paragraph(line@, fence@),
{
    ends_list_exec(line, fence) || detect_list_line(line).is_some()
        || detect_ordered_list_line(line).is_some() || detect_table_row(line)
        || detect_blockquote_line(line).is_some()
}

proof fn lemma_join_step(parts: Seq<Seq<char>>, p: Seq<char>, sep: Seq<char>)
    requires
        parts.len() > 0,
    ensures
        join(parts.push(p), sep) == join(parts, sep) + sep + p,
{
    assert(parts.push(p).drop_last() =~= parts);
}

/// Collects the paragraph that starts at line `start`: that line and the
/// following ones up to one that ends a paragraph, trimmed and joined by
/// single spaces. Returns the text and the index of the first line after it.
pub fn collect_paragraph_lines(lines: &Vec<Vec<char>>, start: usize, fence: &Vec<char>) -> (r: (
    Vec<char>,
    usize,
))
    requires
        start < lines@.len(),
    ensures
        start < r.1 <= lines@.len(),
        forall|j: int| start < j < r.1 ==> !stops_paragraph(#[trigger] lines@[j]@, fence@),
        r.1 < lines@.len() ==> stops_paragraph(lines@[r.1 as int]@, fence@),
        r.0@ == join(trimmed_lines(lines@, start as int, r.1 as int), " "@),
{
    let sep = chars_of(" ");
    let mut out: Vec<char> = Vec::new();
    let first = trim_exec(&lines[start]);
    join_push(&mut out, 0, &sep, &first);
    let count = lines.len();
    let mut i = start + 1;
    proof {
        assert(trimmed_lines(lines@, start as int, i as int) =~= seq![first@]);
        assert(out@ =~= first@);
    }
    while i < count
        invariant
            count == lines@.len(),
            start < i <= lines@.len(),
            sep@ == " "@,
            forall|j: int| start < j < i ==> !stops_paragraph(#[trigger] lines@[j]@, fence@),
            out@ == join(trimmed_lines(lines@, start as int, i as int), " "@),
        ensures
            start < i <= lines@.len(),
            forall|j: int| start < j < i ==> !stops_paragraph(#[trigger] lines@[j]@, fence@),
            i < lines@.len() ==> stops_paragraph(lines@[i as int]@, fence@),
            out@ == join(trimmed_lines(lines@, start as int, i as int), " "@),
        decreases lines@.len() - i,
    {
        if stops_paragraph_exec(&lines[i], fence) {
            break;
        }
        let t = trim_exec(&lines[i]);
        join_push(&mut out, i - start, &sep, &t);
        proof {
            let before = trimmed_lines(lines@, start as int, i as int);
            assert(trimmed_lines(lines@, start as int, i + 1) =~= before.push(t@));
            lemma_join_step(before, t@, " "@);
        }
        i = i + 1;
    }
    (out, i)
}

/// A blockquote line: not blank once trimmed, and starting with `>`.
pub open spec fn is_blockquote_line(line: Seq<char>) -> bool {
    starts_with_char(trim(line), '>')
}

/// The nesting level of a blockquote line: its leading `>` count (at most 255).
pub open spec fn blockquote_level(line: Seq<char>) -> int {
    let c = run_of(trim(line), 0, '>');
    if c > 255 {
        255
    } else {
        c
    }
}

pub fn detect_blockquote_line(line: &Vec<char>) -> (r: Option<u8>)
    ensures
        r is Some <==> is_blockquote_line(line@),
        r matches Some(l) ==> l == blockquote_level(line@),
{
    let t = trim_exec(line);
    if t.len() == 0 || t[0] != '>' {
        return None;
    }
    let c = run_of_exec(&t, 0, '>');
    Some(
        if c > 255 {
            255
        } else {
            c as u8
        },
    )
}

/// The text of a blockquote line: without the leading whitespace, the
/// level's worth of `>`s, and the whitespace after them.
pub open spec fn blockquote_text(line: Seq<char>) -> Seq<char> {
    let t = trim_start(line);
    let k = if blockquote_level(line) <= t.len() {
        blockquote_level(line)
    } else {
        t.len() as int
    };
    trim_start(t.subrange(k, t.len() as int))
}

fn blockquote_text_exec(line: &Vec<char>, level: u8) -> (r: Vec<char>)
    requires
        level == blockquote_level(line@),
    ensures
        r@ == blockquote_text(line@),
{
    let t = trim_start_exec(line);
    let k: usize = if (level as usize) <= t.len() {
        level as usize
    } else {
        t.len()
    };
    trim_start_exec(&slice(&t, k, t.len()))
}

/// A line that ends a blockquote of level `level`: one that ends a list, a
/// list item, a table row, or a line that is not a blockquote line of that level.
pub open spec fn stops_blockquote(line: Seq<char>, fence: Seq<char>, level: int) -> bool {
    ends_list(line, fence) || is_list_line(line) || is_ordered_line(line) || is_table_row(line)
        || !is_blockquote_line(line) || blockquote_level(line) != level
}

/// The texts of the blockquote lines `lines[a..b]`.
pub open spec fn quoted_lines(lines: Seq<Vec<char>>, a: int, b: int) -> Seq<Seq<char>> {
    Seq::new((b - a) as nat, |k: int| blockquote_text(lines[a + k]@))
}

/// Collects the blockquote that starts at line `start`, a blockquote line:
/// that line and the following ones of the same level, up to one that ends
/// it; their texts joined by single spaces.
pub fn collect_blockquote_lines(lines: &Vec<Vec<char>>, start: usize, fence: &Vec<char>) -> (r: (
    Vec<char>,
    usize,
))
    requires
        start < lines@.len(),
        is_blockquote_line(lines@[start as int]@),
    ensures
        start < r.1 <= lines@.len(),
        forall|j: int|
            start < j < r.1 ==> !stops_blockquote(
                #[trigger] lines@[j]@,
                fence@,
                blockquote_level(lines@[start as int]@),
            ),
        r.1 < lines@.len() ==> stops_blockquote(
            lines@[r.1 as int]@,
            fence@,
            blockquote_level(lines@[start as int]@),
        ),
        r.0@ == join(quoted_lines(lines@, start as int, r.1 as int), " "@),
{
    let level = match detect_blockquote_line(&lines[start]) {
        Some(l) => l,
        None => 0,
    };
    let sep = chars_of(" ");
    let mut out: Vec<char> = Vec::new();
    let first = blockquote_text_exec(&lines[start], level);
    join_push(&mut out, 0, &sep, &first);
    let count = lines.len();
    let mut i = start + 1;
    proof {
        assert(quoted_lines(lines@, start as int, i as int) =~= seq![first@]);
        assert(out@ =~= first@);
    }
    while i < count
        invariant
            count == lines@.len(),
            start < i <= lines@.len(),
            sep@ == " "@,
            level == blockquote_level(lines@[start as int]@),
            forall|j: int| start < j < i ==> !stops_blockquote(#[trigger] lines@[j]@, fence@, level as int),
            out@ == join(quoted_lines(lines@, start as int, i as int), " "@),
        ensures
            start < i <= lines@.len(),
            forall|j: int| start < j < i ==> !stops_blockquote(#[trigger] lines@[j]@, fence@, level as int),
            i < lines@.len() ==> stops_blockquote(lines@[i as int]@, fence@, level as int),
            out@ == join(quoted_lines(lines@, start as int, i as int), " "@),
        decreases lines@.len() - i,
    {
        let line = &lines[i];
        if ends_list_exec(line, fence) || detect_list_line(line).is_some()
            || detect_ordered_list_line(line).is_some() || detect_table_row(line) {
            break;
        }
        match detect_blockquote_line(line) {
            Some(l) => {
                if l != level {
                    break;
                }
            },
            None => {
                break;
            },
        }
        let t = blockquote_text_exec(line, level);
        join_push(&mut out, i - start, &sep, &t);
        proof {
            let before = quoted_lines(lines@, start as int, i as int);
            assert(quoted_lines(lines@, start as int, i + 1) =~= before.push(t@));
            lemma_join_step(before, t@, " "@);
        }
        i = i + 1;
    }
    (out, i)
}

/// `node` and `next` are what parsing the blockquote at `start` gives: the
/// lines up to `next` at its level, the line at `next` (if any) ending it, and
/// the inline elements of their joined texts.
pub open spec fn quote_result(lines: Seq<Vec<char>>, start: int, fence: Seq<char>, node: Node, next: int) -> bool {
    let level = blockquote_level(lines[start]@);
    &&& start < next <= lines.len()
    &&& forall|j: int| start < j < next ==> !stops_blockquote(#[trigger] lines[j]@, fence, level)
    &&& next < lines.len() ==> stops_blockquote(lines[next]@, fence, level)
    &&& node matches Node::Blockquote { level: l, content } && l == level && inline_parse(
        join(quoted_lines(lines, start, next), " "@),
        content@,
    )
}

/// `node` and `next` are what parsing the paragraph at `start` gives: the
/// lines up to `next`, the line at `next` (if any) ending it, and the inline
/// elements of their trimmed texts joined by spaces.
pub open spec fn paragraph_result(lines: Seq<Vec<char>>, start: int, fence: Seq<char>, node: Node, next: int) -> bool {
    &&& start < next <= lines.len()
    &&& forall|j: int| start < j < next ==> !stops_paragraph(#[trigger] lines[j]@, fence)
    &&& next < lines.len() ==> stops_paragraph(lines[next]@, fence)
    &&& node matches Node::Paragraph { content } && inline_parse(
        join(trimmed_lines(lines, start, next), " "@),
        content@,
    )
}

/// Parses the blockquote that starts at line `start`.
pub fn parse_blockquote(lines: &Vec<Vec<char>>, start: usize, fence: &Vec<char>) -> (r: Result<
    (Node, usize),
    ParseError,
>)
    requires
        start < lines@.len() < usize::MAX,
    ensures
        r is Ok <==> is_blockquote_line(lines@[start as int]@),
        r matches Ok((node, next)) ==> quote_result(lines@, start as int, fence@, node, next as int),
        r matches Err(e) ==> (e matches ParseError::MalformedMarkdown { span, .. } && span.line == start + 1
            && span.column is None),
{
    let level = match detect_blockquote_line(&lines[start]) {
        Some(l) => l,
        None => {
            return Err(
                ParseError::MalformedMarkdown {
                    message: "Expected blockquote line".to_string(),
                    span: Span { line: start + 1, column: None },
                },
            );
        },
    };
    let (text, next) = collect_blockquote_lines(lines, start, fence);
    let content = parse_inline_chars(&text);
    Ok((Node::Blockquote { level, content }, next))
}

} // verus!
