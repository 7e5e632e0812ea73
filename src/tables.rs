//! Tables: a header row, a separator row that sets the alignments, data rows.
use vstd::prelude::*;
use crate::ast::{Alignment, Inline, Node, ParseError, Span};
use crate::inline::{find_char_exec, inline_parse, lemma_find_char, parse_inline_chars};
use crate::lists::{detect_list_line, detect_ordered_list_line, ends_list, ends_list_exec, is_list_line, is_ordered_line};
use crate::text::{split_exec, split_on, starts_with_char, trim, trim_exec};

verus! {

/// A table row: a line holding at least two `|`.
pub open spec fn is_table_row(line: Seq<char>) -> bool {
    exists|i: int, j: int| 0 <= i < j < line.len() && line[i] == '|' && line[j] == '|'
}

pub fn detect_table_row(line: &Vec<char>) -> (r: bool)
    ensures
        r == is_table_row(line@),
{
    let i = find_char_exec(line, 0, '|');
    proof { lemma_find_char(line@, 0, '|'); }
    if i >= line.len() {
        return false;
    }
    let j = find_char_exec(line, i + 1, '|');
    proof {
        lemma_find_char(line@, i + 1, '|');
        if j >= line@.len() {
            assert forall|x: int, y: int| 0 <= x < y < line@.len() && line@[x] == '|' implies line@[y] != '|' by {
                assert(x >= i);
            }
        } else {
            assert(line@[i as int] == '|' && line@[j as int] == '|');
        }
    }
    j < line.len()
}

/// A separator cell without its optional leading and trailing colon.
pub open spec fn cell_core(p: Seq<char>) -> Seq<char> {
    let a: int = if p.len() > 0 && p[0] == ':' {
        1
    } else {
        0
    };
    let rest = p.subrange(a, p.len() as int);
    if rest.len() > 0 && rest[rest.len() - 1] == ':' {
        rest.subrange(0, rest.len() - 1)
    } else {
        rest
    }
}

/// A non-empty separator cell: at least three `-` and nothing else, once an
/// optional colon at each end is taken off.
pub open spec fn is_dash_cell(p: Seq<char>) -> bool {
    let c = cell_core(p);
    c.len() >= 3 && forall|i: int| 0 <= i < c.len() ==> c[i] == '-'
}

/// A separator row: the trimmed line starts with `|`, and each piece after the
/// first between `|`s is, trimmed, empty or a dash cell.
pub open spec fn is_table_separator(line: Seq<char>) -> bool {
    let t = trim(line);
    let parts = split_on(t, '|');
    starts_with_char(t, '|') && forall|k: int|
        1 <= k < parts.len() ==> trim(#[trigger] parts[k]).len() == 0 || is_dash_cell(
            trim(parts[k]),
        )
}

fn dash_cell(p: &Vec<char>) -> (r: bool)
    ensures
        r == is_dash_cell(p@),
{
    let a: usize = if p.len() > 0 && p[0] == ':' {
        1
    } else {
        0
    };
    let mut b = p.len();
    if b > a && p[b - 1] == ':' {
        b = b - 1;
    }
    proof {
        assert(cell_core(p@) =~= p@.subrange(a as int, b as int));
    }
    if b - a < 3 {
        return false;
    }
    let mut i = a;
    while i < b
        invariant
            a <= i <= b <= p@.len(),
            cell_core(p@) == p@.subrange(a as int, b as int),
            forall|j: int| a <= j < i ==> p@[j] == '-',
        decreases b - i,
    {
        if p[i] != '-' {
            assert(p@.subrange(a as int, b as int)[i - a] != '-');
            return false;
        }
        i = i + 1;
    }
    proof {
        let c = p@.subrange(a as int, b as int);
        assert forall|j: int| 0 <= j < c.len() implies c[j] == '-' by {
            assert(p@[a + j] == '-');
        }
    }
    true
}

pub fn detect_table_separator(line: &Vec<char>) -> (r: bool)
    ensures
        r == is_table_separator(line@),
{
    let t = trim_exec(line);
    if t.len() == 0 || t[0] != '|' {
        return false;
    }
    let parts = split_exec(&t, '|');
    let mut k: usize = 1;
    while k < parts.len()
        invariant
            1 <= k,
            t@ == trim(line@),
            starts_with_char(t@, '|'),
            parts@.len() == split_on(t@, '|').len(),
            forall|i: int| 0 <= i < parts@.len() ==> #[trigger] parts@[i]@ == split_on(t@, '|')[i],
            forall|j: int|
                1 <= j < k && j < parts@.len() ==> trim(#[trigger] split_on(t@, '|')[j]).len() == 0
                    || is_dash_cell(trim(split_on(t@, '|')[j])),
        decreases parts@.len() - k,
    {
        let p = trim_exec(&parts[k]);
        if p.len() > 0 && !dash_cell(&p) {
            assert(parts@[k as int]@ == split_on(t@, '|')[k as int]);
            return false;
        }
        k = k + 1;
    }
    true
}

/// The alignment that a separator cell sets.
pub open spec fn cell_alignment(p: Seq<char>) -> Option<Alignment> {
    let lead = p.len() > 0 && p[0] == ':';
    let trail = p.len() > 0 && p[p.len() - 1] == ':';
    if lead && trail {
        Some(Alignment::Center)
    } else if trail {
        Some(Alignment::Right)
    } else if lead {
        Some(Alignment::Left)
    } else {
        None
    }
}

/// The alignments of the non-empty cells of `parts` from index `k` on.
pub open spec fn alignments_from(parts: Seq<Seq<char>>, k: int) -> Seq<Option<Alignment>>
    decreases parts.len() - k,
{
    if k < 0 || k >= parts.len() {
        seq![]
    } else if trim(parts[k]).len() == 0 {
        alignments_from(parts, k + 1)
    } else {
        seq![cell_alignment(trim(parts[k]))] + alignments_from(parts, k + 1)
    }
}

/// The alignments that a separator row sets, one per non-empty cell.
pub open spec fn separator_alignments(line: Seq<char>) -> Seq<Option<Alignment>> {
    alignments_from(split_on(trim(line), '|'), 1)
}

pub fn parse_table_separator(line: &Vec<char>) -> (r: Vec<Option<Alignment>>)
    ensures
        r@ == separator_alignments(line@),
{
    let t = trim_exec(line);
    let parts = split_exec(&t, '|');
    let ghost sp = split_on(t@, '|');
    let mut out: Vec<Option<Alignment>> = Vec::new();
    let mut k: usize = 1;
    proof {
        if parts@.len() < 1 {
            assert(alignments_from(sp, 1) =~= seq![]);
        }
    }
    while k < parts.len()
        invariant
            1 <= k,
            sp == split_on(t@, '|'),
            t@ == trim(line@),
            parts@.len() == sp.len(),
            forall|i: int| 0 <= i < parts@.len() ==> #[trigger] parts@[i]@ == sp[i],
            out@ + alignments_from(sp, k as int) == alignments_from(sp, 1),
        decreases parts@.len() - k,
    {
        let p = trim_exec(&parts[k]);
        assert(parts@[k as int]@ == sp[k as int]);
        if p.len() > 0 {
            let lead = p[0] == ':';
            let trail = p[p.len() - 1] == ':';
            let al = if lead && trail {
                Some(Alignment::Center)
            } else if trail {
                Some(Alignment::Right)
            } else if lead {
                Some(Alignment::Left)
            } else {
                None
            };
            let ghost o = out@;
            out.push(al);
            proof {
                assert(out@ + alignments_from(sp, k + 1) =~= o + alignments_from(sp, k as int));
            }
        }
        k = k + 1;
    }
    proof {
        assert(alignments_from(sp, k as int) =~= seq![]);
        assert(out@ =~= out@ + alignments_from(sp, k as int));
    }
    out
}

/// The cells of a row: the pieces between `|`s, without an empty first piece
/// (a leading `|`) or an empty last piece (a trailing `|`), each trimmed.
pub open spec fn row_cells(line: Seq<char>) -> Seq<Seq<char>> {
    let parts = split_on(trim(line), '|');
    let s: int = if parts.len() > 0 && trim(parts[0]).len() == 0 {
        1
    } else {
        0
    };
    let e: int = if parts.len() > 0 && trim(parts[parts.len() - 1]).len() == 0 {
        parts.len() - 1
    } else {
        parts.len() as int
    };
    if s <= e {
        parts.subrange(s, e).map_values(|p: Seq<char>| trim(p))
    } else {
        seq![]
    }
}

/// Parses each cell of a row; an empty cell gives no elements.
pub fn parse_table_row(line: &Vec<char>) -> (r: Vec<Vec<Inline>>)
    ensures
        r@.len() == row_cells(line@).len(),
        forall|j: int| 0 <= j < r@.len() ==> inline_parse(row_cells(line@)[j], #[trigger] r@[j]@),
{
    let t = trim_exec(line);
    let parts = split_exec(&t, '|');
    let ghost sp = split_on(t@, '|');
    let n = parts.len();
    let s: usize = if n > 0 && trim_exec(&parts[0]).len() == 0 {
        1
    } else {
        0
    };
    let e: usize = if n > 0 && trim_exec(&parts[n - 1]).len() == 0 {
        n - 1
    } else {
        n
    };
    let mut out: Vec<Vec<Inline>> = Vec::new();
    if s > e {
        return out;
    }
    let ghost cells = sp.subrange(s as int, e as int).map_values(|p: Seq<char>| trim(p));
    assert(cells == row_cells(line@));
    let mut k = s;
    while k < e
        invariant
            s <= k <= e <= n,
            n == parts@.len(),
            parts@.len() == sp.len(),
            forall|i: int| 0 <= i < parts@.len() ==> #[trigger] parts@[i]@ == sp[i],
            cells == sp.subrange(s as int, e as int).map_values(|p: Seq<char>| trim(p)),
            out@.len() == k - s,
            forall|j: int| 0 <= j < out@.len() ==> inline_parse(cells[j], #[trigger] out@[j]@),
        decreases e - k,
    {
        let c = trim_exec(&parts[k]);
        assert(c@ == cells[k - s]);
        let cell = parse_inline_chars(&c);
        out.push(cell);
        k = k + 1;
    }
    out
}

/// `cells` are the parsed cells of the row `line`.
pub open spec fn row_parsed(line: Seq<char>, cells: Seq<Vec<Inline>>) -> bool {
    cells.len() == row_cells(line).len() && forall|j: int|
        0 <= j < cells.len() ==> inline_parse(row_cells(line)[j], #[trigger] cells[j]@)
}

/// A line that continues a table: not blank, no heading, fence or list item,
/// and a table row.
pub open spec fn continues_table(line: Seq<char>, fence: Seq<char>) -> bool {
    !ends_list(line, fence) && !is_list_line(line) && !is_ordered_line(line) && is_table_row(line)
}

/// `node` and `next` are what parsing the table at `start` gives: the header
/// row's cells, the separator's alignments, and one parsed row for each line
/// from `start + 2` to `next`, the line at `next` (if any) not continuing it.
pub open spec fn table_result(lines: Seq<Vec<char>>, start: int, fence: Seq<char>, node: Node, next: int) -> bool {
    &&& start + 2 <= next <= lines.len()
    &&& node matches Node::Table { headers, rows, alignments } && alignments@ == separator_alignments(
        lines[start + 1]@,
    ) && row_parsed(lines[start]@, headers@) && rows@.len() == next - start - 2 && (forall|j: int|
        0 <= j < rows@.len() ==> row_parsed(lines[start + 2 + j]@, #[trigger] rows@[j]@))
    &&& forall|j: int| start + 2 <= j < next ==> continues_table(#[trigger] lines[j]@, fence)
    &&& next < lines.len() ==> !continues_table(lines[next]@, fence)
}

/// Parses the table whose header row is line `start` and whose separator row
/// follows it, with the data rows after them. The table ends before a blank
/// line, a heading, a fence, a list item or a line that is not a row.
pub fn parse_table(lines: &Vec<Vec<char>>, start: usize, fence: &Vec<char>) -> (r: Result<
    (Node, usize),
    ParseError,
>)
    requires
        start < lines@.len() < usize::MAX,
    ensures
        r is Ok <==> is_table_row(lines@[start as int]@) && start + 1 < lines@.len()
            && is_table_separator(lines@[start + 1]@),
        r matches Ok((node, next)) ==> table_result(lines@, start as int, fence@, node, next as int),
        r matches Err(e) ==> (e matches ParseError::MalformedMarkdown { span, .. } && span.column is None
            && span.line == if is_table_row(lines@[start as int]@) { start + 2 } else { start + 1 }),
{
    let mut i = start;
    if !detect_table_row(&lines[i]) {
        return Err(
            ParseError::MalformedMarkdown {
                message: "Expected table row".to_string(),
                span: Span { line: i + 1, column: None },
            },
        );
    }
    let headers = parse_table_row(&lines[i]);
    i = i + 1;
    if i >= lines.len() || !detect_table_separator(&lines[i]) {
        return Err(
            ParseError::MalformedMarkdown {
                message: "Expected table separator row".to_string(),
                span: Span { line: i + 1, column: None },
            },
        );
    }
    let alignments = parse_table_separator(&lines[i]);
    i = i + 1;
    let mut rows: Vec<Vec<Vec<Inline>>> = Vec::new();
    while i < lines.len()
        invariant
            start + 2 <= i <= lines@.len(),
            rows@.len() == i - start - 2,
            forall|j: int| 0 <= j < rows@.len() ==> row_parsed(lines@[start + 2 + j]@, #[trigger] rows@[j]@),
            forall|j: int| start + 2 <= j < i ==> continues_table(#[trigger] lines@[j]@, fence@),
        ensures
            start + 2 <= i <= lines@.len(),
            rows@.len() == i - start - 2,
            forall|j: int| 0 <= j < rows@.len() ==> row_parsed(lines@[start + 2 + j]@, #[trigger] rows@[j]@),
            forall|j: int| start + 2 <= j < i ==> continues_table(#[trigger] lines@[j]@, fence@),
            i < lines@.len() ==> !continues_table(lines@[i as int]@, fence@),
        decreases lines@.len() - i,
    {
        let line = &lines[i];
        if ends_list_exec(line, fence) {
            break;
        }
        if detect_list_line(line).is_some() || detect_ordered_list_line(line).is_some() {
            break;
        }
        if !detect_table_row(line) {
            break;
        }
        rows.push(parse_table_row(line));
        i = i + 1;
    }
    Ok((Node::Table { headers, rows, alignments }, i))
}

} // verus!
