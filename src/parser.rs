//! The document driver: at each line, the first block parser whose block
//! starts there takes it, in a fixed order of precedence.
use vstd::prelude::*;
use crate::ast::{Node, ParseError, Span};
use crate::blocks::{
    reported_level, collect_paragraph_lines, heading_text, is_blockquote_line, paragraph_result, parse_blockquote,
    parse_heading, quote_result,
};
use crate::inline::inline_parse;
use crate::code_blocks::{closing_fence, code_block_result, node_warnings, parse_code_block};
use crate::mermaid::strs;
use crate::config::ParserConfig;
use crate::horizontal_rules::{horizontal_rule_chars, is_horizontal_rule};
use crate::inline::parse_inline_chars;
use crate::lists::{
    detect_list_line, detect_ordered_list_line, is_list_line, is_ordered_line, ordered_list_result,
    parse_ordered_list, parse_unordered_list, unordered_list_result,
};
use crate::tables::{
    detect_table_row, detect_table_separator, is_table_row, is_table_separator, parse_table, table_result,
};
use crate::text::{chars_of, lines_exec, lines_of, run_of, starts_with, starts_with_char, trim, trim_exec};

verus! {

/// The kinds of block, in the order in which they are tried.
pub enum BlockKind {
    Blank,
    Code,
    HeadingTooDeep,
    Heading,
    Ordered,
    Unordered,
    Table,
    Quote,
    Rule,
    Paragraph,
}

/// Which block starts at line `i`: blank lines are skipped; then a fence,
/// a heading (too deep is an error; markers with no text are not one), an
/// ordered item, an unordered item, a table row followed by a separator row,
/// a blockquote, a horizontal rule, and otherwise a paragraph.
pub open spec fn block_kind(lines: Seq<Seq<char>>, i: int, c: ParserConfig) -> BlockKind {
    let t = trim(lines[i]);
    let hashes = run_of(t, 0, '#');
    if t.len() == 0 {
        BlockKind::Blank
    } else if starts_with(t, c.code_fence_pattern@) {
        BlockKind::Code
    } else if starts_with_char(t, '#') && hashes > c.max_heading_level {
        BlockKind::HeadingTooDeep
    } else if starts_with_char(t, '#') && heading_text(t).len() > 0 {
        BlockKind::Heading
    } else if is_ordered_line(lines[i]) {
        BlockKind::Ordered
    } else if is_list_line(lines[i]) {
        BlockKind::Unordered
    } else if is_table_row(lines[i]) && i + 1 < lines.len() && is_table_separator(lines[i + 1]) {
        BlockKind::Table
    } else if is_blockquote_line(lines[i]) {
        BlockKind::Quote
    } else if is_horizontal_rule(lines[i]) {
        BlockKind::Rule
    } else {
        BlockKind::Paragraph
    }
}

/// `node` and `next` are what parsing the block at line `i` gives, for the
/// kind of block that starts there.
pub open spec fn block_result(lines: Seq<Vec<char>>, i: int, c: ParserConfig, node: Option<Node>, next: int, tool_absent: bool) -> bool {
    let fence = c.code_fence_pattern@;
    let t = trim(lines[i]@);
    match block_kind(lines.map_values(|l: Vec<char>| l@), i, c) {
        BlockKind::Blank => node is None && next == i + 1,
        BlockKind::Code => node matches Some(n) && code_block_result(lines, i, c, n, next, tool_absent),
        BlockKind::Heading => next == i + 1 && (node matches Some(Node::Heading { level, content })
            && level == run_of(t, 0, '#') && inline_parse(heading_text(t), content@)),
        BlockKind::Ordered => node matches Some(n) && ordered_list_result(lines, i, fence, n, next),
        BlockKind::Unordered => node matches Some(n) && unordered_list_result(lines, i, fence, n, next),
        BlockKind::Table => node matches Some(n) && table_result(lines, i, fence, n, next),
        BlockKind::Quote => node matches Some(n) && quote_result(lines, i, fence, n, next),
        BlockKind::Rule => next == i + 1 && node matches Some(Node::HorizontalRule),
        BlockKind::Paragraph => node matches Some(n) && paragraph_result(lines, i, fence, n, next),
        BlockKind::HeadingTooDeep => false,
    }
}

fn no_warnings() -> (r: Vec<String>)
    ensures
        strs(r@) == Seq::<Seq<char>>::empty(),
{
    let r: Vec<String> = Vec::new();
    proof { assert(strs(r@) =~= Seq::<Seq<char>>::empty()); }
    r
}

/// The parse warnings of `nodes`, block after block.
pub open spec fn all_warnings(nodes: Seq<Node>) -> Seq<Seq<char>>
    decreases nodes.len(),
{
    if nodes.len() == 0 {
        seq![]
    } else {
        all_warnings(nodes.drop_last()) + node_warnings(nodes.last())
    }
}

/// Parses the block at line `i`. A blank line gives no node. Returns the
/// node, the index of the line after the block (always past `i`), and the
/// warnings that the block gives. Fails, and stops the parse, for a heading
/// deeper than allowed and for a code block that is never closed.
pub fn parse_block<F: Fn(String) -> Option<Vec<String>>>(
    lines: &Vec<Vec<char>>,
    i: usize,
    config: &ParserConfig,
    tool: &F,
    Ghost(tool_absent): Ghost<bool>,
) -> (r: Result<(Option<Node>, usize, Vec<String>), ParseError>)
    requires
        i < lines@.len() < usize::MAX,
        forall|s: String| tool.requires((s,)),
        tool_absent ==> forall|s: String, o: Option<Vec<String>>| tool.ensures((s,), o) ==> o is None,
    ensures
        ({
            let k = block_kind(lines@.map_values(|l: Vec<char>| l@), i as int, *config);
            &&& r matches Ok((node, next, _)) ==> i < next <= lines@.len() && block_result(lines@, i as int, *config, node, next as int, tool_absent)
            &&& r matches Ok((node, _, w)) ==> strs(w@) == match node {
                Some(n) => node_warnings(n),
                None => seq![],
            }
            &&& k is HeadingTooDeep <==> (r matches Err(ParseError::InvalidHeadingLevel { .. }))
            &&& r matches Err(ParseError::InvalidHeadingLevel { level, span }) ==> span.line == i + 1
                && span.column is None && level == reported_level(run_of(trim(lines@[i as int]@), 0, '#'), config.max_heading_level)
            &&& (k is Code && closing_fence(lines@, i as int, config.code_fence_pattern@) is None)
                <==> (r matches Err(ParseError::UnclosedCodeBlock { .. }))
            &&& r matches Err(ParseError::UnclosedCodeBlock { span }) ==> span.line == i + 1 && span.column is None
            &&& r matches Err(e) ==> (e is InvalidHeadingLevel || e is UnclosedCodeBlock)
        }),
{
    let ghost ls = lines@.map_values(|l: Vec<char>| l@);
    proof {
        assert(ls[i as int] == lines@[i as int]@);
        if i + 1 < lines@.len() {
            assert(ls[i + 1] == lines@[i + 1]@);
        }
    }
    let line = &lines[i];
    let t = trim_exec(line);
    if t.len() == 0 {
        return Ok((None, i + 1, no_warnings()));
    }
    let fence = chars_of(config.code_fence_pattern.as_str());
    if crate::text::starts_with_exec(&t, &fence) {
        return match parse_code_block(lines, i, config, tool, Ghost(tool_absent)) {
            Ok((node, next, warnings)) => Ok((Some(node), next, warnings)),
            Err(e) => Err(e),
        };
    }
    match parse_heading(&t, i + 1, config.max_heading_level) {
        Err(e) => {
            return Err(e);
        },
        Ok(Some(node)) => {
            return Ok((Some(node), i + 1, no_warnings()));
        },
        Ok(None) => {},
    }
    proof {
        crate::text::lemma_trim_first(line@);
    }
    if detect_ordered_list_line(line).is_some() {
        let (node, next) = parse_ordered_list(lines, i, &fence);
        return Ok((Some(node), next, no_warnings()));
    }
    if detect_list_line(line).is_some() {
        let (node, next) = parse_unordered_list(lines, i, &fence);
        return Ok((Some(node), next, no_warnings()));
    }
    if detect_table_row(line) && i + 1 < lines.len() && detect_table_separator(&lines[i + 1]) {
        return match parse_table(lines, i, &fence) {
            Ok((node, next)) => Ok((Some(node), next, no_warnings())),
            Err(e) => Err(e),
        };
    }
    if crate::blocks::detect_blockquote_line(line).is_some() {
        return match parse_blockquote(lines, i, &fence) {
            Ok((node, next)) => Ok((Some(node), next, no_warnings())),
            Err(e) => Err(e),
        };
    }
    if horizontal_rule_chars(line) {
        return Ok((Some(Node::HorizontalRule), i + 1, no_warnings()));
    }
    let (text, next) = collect_paragraph_lines(lines, i, &fence);
    let content = parse_inline_chars(&text);
    Ok((Some(Node::Paragraph { content }), next, no_warnings()))
}

/// `e` is the error that stops a parse at line `p` of `ls`: a heading deeper
/// than allowed, or a fence that is never closed, reported at line `p + 1`.
pub open spec fn stops_at(ls: Seq<Vec<char>>, c: ParserConfig, p: int, e: ParseError) -> bool {
    let k = block_kind(ls.map_values(|l: Vec<char>| l@), p, c);
    &&& 0 <= p < ls.len()
    &&& (k is HeadingTooDeep && (e matches ParseError::InvalidHeadingLevel { level, span }
        && level == reported_level(run_of(trim(ls[p]@), 0, '#'), c.max_heading_level)
        && span.line == p + 1 && span.column is None))
        || (k is Code && closing_fence(ls, p, c.code_fence_pattern@) is None && (e matches ParseError::UnclosedCodeBlock {
        span,
    } && span.line == p + 1 && span.column is None))
}

/// The nodes among `got`, in order.
pub open spec fn present(got: Seq<Option<Node>>) -> Seq<Node>
    decreases got.len(),
{
    if got.len() == 0 {
        seq![]
    } else {
        match got.last() {
            Some(n) => present(got.drop_last()).push(n),
            None => present(got.drop_last()),
        }
    }
}

/// Block `m` of a walk over `ls`: it starts at `pos[m]`, ends before
/// `pos[m + 1]`, and `got[m]` is what parsing it gives (none for a blank line).
pub open spec fn walk_step(ls: Seq<Vec<char>>, c: ParserConfig, pos: Seq<int>, got: Seq<Option<Node>>, m: int, tool_absent: bool) -> bool {
    &&& 0 <= pos[m] < pos[m + 1] <= ls.len()
    &&& block_result(ls, pos[m], c, got[m], pos[m + 1], tool_absent)
}

/// `pos` and `got` walk the lines `ls` block by block from the first line.
/// (`ls` holds each line as a vector; only its characters matter.)
pub open spec fn block_walk(ls: Seq<Vec<char>>, c: ParserConfig, pos: Seq<int>, got: Seq<Option<Node>>, tool_absent: bool) -> bool {
    &&& pos.len() == got.len() + 1
    &&& pos[0] == 0
    &&& forall|m: int| 0 <= m < got.len() ==> #[trigger] walk_step(ls, c, pos, got, m, tool_absent)
}

/// Parses `input` into its blocks, stopping at the first error. `warnings`
/// receives the warnings of the parse.
pub fn parse_document<F: Fn(String) -> Option<Vec<String>>>(
    input: &str,
    config: &ParserConfig,
    tool: &F,
    warnings: &mut Vec<String>,
    Ghost(tool_absent): Ghost<bool>,
) -> (r: Result<Vec<Node>, ParseError>)
    requires
        forall|s: String| tool.requires((s,)),
        tool_absent ==> forall|s: String, o: Option<Vec<String>>| tool.ensures((s,), o) ==> o is None,
    ensures
        r matches Err(e) ==> (e is InvalidHeadingLevel || e is UnclosedCodeBlock || e is MalformedMarkdown),
        input@.len() == 0 ==> (r matches Ok(nodes) && nodes@.len() == 0),
        r matches Ok(nodes) ==> exists|ls: Seq<Vec<char>>, pos: Seq<int>, got: Seq<Option<Node>>|
            #[trigger] block_walk(ls, *config, pos, got, tool_absent) && ls.map_values(|l: Vec<char>| l@) == lines_of(input@)
                && pos.last() == ls.len() && nodes@ == present(got),
        r matches Ok(nodes) ==> strs(final(warnings)@) == strs(old(warnings)@) + all_warnings(nodes@),
        r matches Err(e) ==> (e is MalformedMarkdown && lines_of(input@).len() == usize::MAX) || exists|ls: Seq<Vec<char>>, pos: Seq<int>, got: Seq<Option<Node>>|
            #[trigger] block_walk(ls, *config, pos, got, tool_absent) && ls.map_values(|l: Vec<char>| l@) == lines_of(input@)
                && stops_at(ls, *config, pos.last(), e)
                && strs(final(warnings)@) == strs(old(warnings)@) + all_warnings(present(got)),
{
    let chars = chars_of(input);
    let lines = lines_exec(&chars);
    let mut nodes: Vec<Node> = Vec::new();
    if lines.len() == usize::MAX {
        return Err(
            ParseError::MalformedMarkdown {
                message: "input has too many lines".to_string(),
                span: Span { line: 0, column: None },
            },
        );
    }
    proof {
        if input@.len() == 0 {
            assert(lines_of(chars@).len() == 0);
        }
    }
    let ghost ls = lines_of(input@);
    proof {
        assert(lines@.map_values(|l: Vec<char>| l@) =~= ls);
    }
    let mut i: usize = 0;
    let ghost mut pos: Seq<int> = seq![0];
    let ghost mut got: Seq<Option<Node>> = seq![];
    while i < lines.len()
        invariant
            i <= lines@.len() < usize::MAX,
            forall|s: String| tool.requires((s,)),
            tool_absent ==> forall|s: String, o: Option<Vec<String>>| tool.ensures((s,), o) ==> o is None,
            input@.len() == 0 ==> lines@.len() == 0 && nodes@.len() == 0,
            lines@.map_values(|l: Vec<char>| l@) == ls,
            ls == lines_of(input@),
            block_walk(lines@, *config, pos, got, tool_absent),
            pos.last() == i,
            nodes@ == present(got),
            strs(warnings@) == strs(old(warnings)@) + all_warnings(nodes@),
        decreases lines@.len() - i,
    {
        match parse_block(&lines, i, config, tool, Ghost(tool_absent)) {
            Ok((node, next, mut found)) => {
                let ghost w0 = warnings@;
                let ghost fv = found@;
                warnings.append(&mut found);
                proof {
                    assert(strs(warnings@) =~= strs(w0) + strs(fv));
                }
                let ghost pos0 = pos;
                let ghost got0 = got;
                proof {
                    pos = pos.push(next as int);
                    got = got.push(node);
                    assert(got.drop_last() =~= got0);
                    assert(walk_step(lines@, *config, pos, got, got0.len() as int, tool_absent));
                    assert forall|m: int| 0 <= m < got.len() implies #[trigger] walk_step(lines@, *config, pos, got, m, tool_absent) by {
                        if m < got0.len() {
                            assert(walk_step(lines@, *config, pos0, got0, m, tool_absent));
                        }
                    }
                }
                let ghost ns = nodes@;
                match node {
                    Some(n) => {
                        nodes.push(n);
                        proof {
                            assert(nodes@.drop_last() =~= ns);
                        }
                    },
                    None => {},
                }
                proof {
                    assert(strs(warnings@) =~= strs(old(warnings)@) + all_warnings(nodes@));
                }
                i = next;
            },
            Err(e) => {
                proof {
                    assert(stops_at(lines@, *config, pos.last(), e));
                }
                return Err(e);
            },
        }
    }
    proof {
        assert(block_walk(lines@, *config, pos, got, tool_absent));
    }
    Ok(nodes)
}

} // verus!

verus! {

/// A parser over one Markdown input, with its settings and the warnings of
/// its last parse.
pub struct Parser {
    pub input: String,
    pub warnings: Vec<String>,
    pub config: ParserConfig,
}

impl Parser {
    /// A parser over `input` with the default settings.
    pub fn new(input: String) -> (r: Result<Parser, ParseError>)
        ensures
            r matches Ok(p) && p.input == input && p.warnings@.len() == 0
                && p.config.max_heading_level == 6 && p.config.code_fence_pattern@ == "```"@
                && p.config.mermaid_language@ == "mermaid"@,
    {
        Self::with_config(input, ParserConfig::default())
    }

    /// A parser over `input` with the settings `config`.
    pub fn with_config(input: String, config: ParserConfig) -> (r: Result<Parser, ParseError>)
        ensures
            r matches Ok(p) && p.input == input && p.config == config && p.warnings@.len() == 0,
    {
        Ok(Parser { input, warnings: Vec::new(), config })
    }

    /// Parses the input into its blocks, stopping at the first structural
    /// error. Where the settings ask for the external diagram tool, it is
    /// taken to be unavailable (a warning); see `parse_with`.
    pub fn parse(&mut self) -> (r: Result<Vec<Node>, ParseError>)
        ensures
            final(self).input == old(self).input,
            final(self).config == old(self).config,
            r matches Err(e) ==> (e is InvalidHeadingLevel || e is UnclosedCodeBlock
                || e is MalformedMarkdown),
            old(self).input@.len() == 0 ==> (r matches Ok(nodes) && nodes@.len() == 0),
            r matches Ok(nodes) ==> exists|ls: Seq<Vec<char>>, pos: Seq<int>, got: Seq<Option<Node>>|
                #[trigger] block_walk(ls, old(self).config, pos, got, true) && ls.map_values(|l: Vec<char>| l@)
                    == lines_of(old(self).input@) && pos.last() == ls.len() && nodes@ == present(got),
            r matches Ok(nodes) ==> strs(final(self).warnings@) == all_warnings(nodes@),
            r matches Err(e) ==> (e is MalformedMarkdown && lines_of(old(self).input@).len() == usize::MAX) || exists|ls: Seq<Vec<char>>, pos: Seq<int>, got: Seq<Option<Node>>|
                #[trigger] block_walk(ls, old(self).config, pos, got, true) && ls.map_values(|l: Vec<char>| l@)
                    == lines_of(old(self).input@) && stops_at(ls, old(self).config, pos.last(), e)
                    && strs(final(self).warnings@) == all_warnings(present(got)),
    {
        let unavailable = |_body: String| -> (r: Option<Vec<String>>)
            ensures
                r is None,
            { None };
        self.parse_using(&unavailable, Ghost(true))
    }

    /// Parses the input as `parse` does, running `tool` on each Mermaid body
    /// that is to be checked by the external tool: `None` from it means the
    /// tool could not be run, `Some(errors)` what it reported.
    pub fn parse_with<F: Fn(String) -> Option<Vec<String>>>(&mut self, tool: &F) -> (r: Result<
        Vec<Node>,
        ParseError,
    >)
        requires
            forall|s: String| tool.requires((s,)),
        ensures
            final(self).input == old(self).input,
            final(self).config == old(self).config,
            r matches Err(e) ==> (e is InvalidHeadingLevel || e is UnclosedCodeBlock
                || e is MalformedMarkdown),
            old(self).input@.len() == 0 ==> (r matches Ok(nodes) && nodes@.len() == 0),
            r matches Ok(nodes) ==> exists|ls: Seq<Vec<char>>, pos: Seq<int>, got: Seq<Option<Node>>|
                #[trigger] block_walk(ls, old(self).config, pos, got, false) && ls.map_values(|l: Vec<char>| l@)
                    == lines_of(old(self).input@) && pos.last() == ls.len() && nodes@ == present(got),
            r matches Ok(nodes) ==> strs(final(self).warnings@) == all_warnings(nodes@),
            r matches Err(e) ==> (e is MalformedMarkdown && lines_of(old(self).input@).len() == usize::MAX) || exists|ls: Seq<Vec<char>>, pos: Seq<int>, got: Seq<Option<Node>>|
                #[trigger] block_walk(ls, old(self).config, pos, got, false) && ls.map_values(|l: Vec<char>| l@)
                    == lines_of(old(self).input@) && stops_at(ls, old(self).config, pos.last(), e)
                    && strs(final(self).warnings@) == all_warnings(present(got)),
    {
        self.parse_using(tool, Ghost(false))
    }

    fn parse_using<F: Fn(String) -> Option<Vec<String>>>(&mut self, tool: &F, Ghost(tool_absent): Ghost<bool>) -> (r: Result<
        Vec<Node>,
        ParseError,
    >)
        requires
            forall|s: String| tool.requires((s,)),
            tool_absent ==> forall|s: String, o: Option<Vec<String>>| tool.ensures((s,), o) ==> o is None,
        ensures
            final(self).input == old(self).input,
            final(self).config == old(self).config,
            r matches Err(e) ==> (e is InvalidHeadingLevel || e is UnclosedCodeBlock
                || e is MalformedMarkdown),
            old(self).input@.len() == 0 ==> (r matches Ok(nodes) && nodes@.len() == 0),
            r matches Ok(nodes) ==> exists|ls: Seq<Vec<char>>, pos: Seq<int>, got: Seq<Option<Node>>|
                #[trigger] block_walk(ls, old(self).config, pos, got, tool_absent) && ls.map_values(|l: Vec<char>| l@)
                    == lines_of(old(self).input@) && pos.last() == ls.len() && nodes@ == present(got),
            r matches Ok(nodes) ==> strs(final(self).warnings@) == all_warnings(nodes@),
            r matches Err(e) ==> (e is MalformedMarkdown && lines_of(old(self).input@).len() == usize::MAX) || exists|ls: Seq<Vec<char>>, pos: Seq<int>, got: Seq<Option<Node>>|
                #[trigger] block_walk(ls, old(self).config, pos, got, tool_absent) && ls.map_values(|l: Vec<char>| l@)
                    == lines_of(old(self).input@) && stops_at(ls, old(self).config, pos.last(), e)
                    && strs(final(self).warnings@) == all_warnings(present(got)),
    {
        let mut warnings = no_warnings();
        let r = parse_document(self.input.as_str(), &self.config, tool, &mut warnings, Ghost(tool_absent));
        self.warnings = warnings;
        r
    }

    /// The warnings of the last parse.
    pub fn warnings(&self) -> (r: &[String])
        ensures
            r@ == self.warnings@,
    {
        self.warnings.as_slice()
    }
}

} // verus!
