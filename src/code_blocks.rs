//! Fenced code blocks, and the Mermaid diagrams among them.
use vstd::prelude::*;
use crate::ast::{Node, ParseError, Span, ValidationStatus};
use crate::config::ParserConfig;
use crate::mermaid::{
    directive_line, directive_on, merge_config, merged, parse_frontmatter, strs, validate_syntax,
    validation_result,
};
use crate::text::{
    chars_of, is_ws, join, join_exec, lines_of, slice, string_of, trim, trim_exec, views,
};

verus! {

/// The lower-case form of `s`, as `str::to_lowercase` gives it.
pub uninterp spec fn lower_of(s: Seq<char>) -> Seq<char>;

/// Relies on `str::to_lowercase`: the lower-case form of `s`, which depends on
/// the characters of `s` alone.
#[verifier::external_body]
fn to_lower(s: &str) -> (r: String)
    ensures
        r@ == lower_of(s@),
{
    s.to_lowercase()
}

/// A fence tag selects the Mermaid language: the tag is not empty and its
/// lower-case form equals that of the language name.
pub open spec fn selects_mermaid(tag: Seq<char>, language: Seq<char>) -> bool {
    tag.len() > 0 && lower_of(tag) == lower_of(language)
}

/// Whether the tag `tag` selects the Mermaid language, given the lower-case
/// forms of the tag and of the language name.
pub fn tag_selects_mermaid(tag: &Vec<char>, lower_tag: &Vec<char>, lower_language: &Vec<char>) -> (r: bool)
    ensures
        r == (tag@.len() > 0 && lower_tag@ == lower_language@),
{
    if tag.len() == 0 || lower_tag.len() != lower_language.len() {
        return false;
    }
    let same = crate::text::starts_with_exec(lower_tag, lower_language);
    proof {
        if same {
            assert(lower_tag@.subrange(0, lower_language@.len() as int) =~= lower_tag@);
        } else {
            assert(lower_tag@.subrange(0, lower_language@.len() as int) =~= lower_tag@);
        }
    }
    same
}

/// The language tag of an opening fence line: what follows the first
/// `fence_len` characters of the trimmed line, trimmed.
pub open spec fn fence_tag(line: Seq<char>, fence_len: int) -> Seq<char> {
    let t = trim(line);
    let k = if fence_len <= t.len() {
        fence_len
    } else {
        t.len() as int
    };
    trim(t.subrange(k, t.len() as int))
}

/// The first line at or after `j` that, trimmed, is exactly the fence.
pub open spec fn fence_from(lines: Seq<Vec<char>>, j: int, fence: Seq<char>) -> Option<int>
    decreases lines.len() - j,
{
    if j < 0 || j >= lines.len() {
        None
    } else if trim(lines[j]@) == fence {
        Some(j)
    } else {
        fence_from(lines, j + 1, fence)
    }
}

/// The first line after `start` that, trimmed, is exactly the fence.
pub open spec fn closing_fence(lines: Seq<Vec<char>>, start: int, fence: Seq<char>) -> Option<int> {
    fence_from(lines, start + 1, fence)
}

pub proof fn lemma_fence_from(lines: Seq<Vec<char>>, j: int, fence: Seq<char>)
    requires
        0 <= j,
    ensures
        fence_from(lines, j, fence) matches Some(c) ==> j <= c < lines.len() && trim(lines[c]@) == fence,
    decreases lines.len() - j,
{
    if j < lines.len() && trim(lines[j]@) != fence {
        lemma_fence_from(lines, j + 1, fence);
    }
}

/// The diagram text that is stored for a Mermaid body: the body without its
/// directive line (trimmed), or the body itself where there is no directive.
pub open spec fn stored_diagram(body: Seq<char>) -> Seq<char> {
    match directive_line(lines_of(body)) {
        Some(i) => trim(join(lines_of(body).remove(i), "\n"@)),
        None => body,
    }
}

/// The settings that a Mermaid body's directive gives, if any.
pub open spec fn body_directive(body: Seq<char>) -> Option<crate::mermaid::ConfigV> {
    match directive_line(lines_of(body)) {
        Some(i) => directive_on(lines_of(body)[i]),
        None => None,
    }
}

/// `node` and `next` are what parsing the fenced block at `start` gives: it
/// ends at its closing fence; a block tagged with the Mermaid language is a
/// diagram whose stored text and settings come from its body, and whose check
/// is that of `validate_syntax` (with whatever the external tool gave, which
/// is "could not be run" when `tool_absent`); otherwise a code block holding
/// the body and the tag.
pub open spec fn code_block_result(lines: Seq<Vec<char>>, start: int, config: ParserConfig, node: Node, next: int, tool_absent: bool) -> bool {
    let close = closing_fence(lines, start, config.code_fence_pattern@)->0;
    let code = join(views(lines.subrange(start + 1, close)), "\n"@);
    let tag = fence_tag(lines[start]@, config.code_fence_length as int);
    &&& closing_fence(lines, start, config.code_fence_pattern@) is Some
    &&& next == close + 1
    &&& selects_mermaid(tag, config.mermaid_language@) ==> (node matches Node::MermaidDiagram {
        diagram,
        config: Some(c),
        validation_status,
        warnings,
    } && diagram@ == stored_diagram(code) && c.view() == merged(config.mermaid, body_directive(code))
        && (!config.mermaid.validate_syntax ==> validation_status is NotValidated && warnings@.len() == 0)
        && (config.mermaid.validate_syntax && (!config.mermaid.use_cli_validation || trim(diagram@).len()
        == 0) ==> validation_result(diagram@, None, validation_status, warnings@))
        && (config.mermaid.validate_syntax && config.mermaid.use_cli_validation && trim(diagram@).len() > 0
        ==> (exists|o: Option<Vec<String>>| #[trigger] validation_result(diagram@, Some(o), validation_status, warnings@))
        && (tool_absent ==> validation_result(diagram@, Some(None), validation_status, warnings@))))
    &&& !selects_mermaid(tag, config.mermaid_language@) ==> (node matches Node::CodeBlock { lang, code: c }
        && c@ == code && (tag.len() == 0 ==> lang is None) && (tag.len() > 0 ==> (lang matches Some(l) && l@ == tag)))
}

fn prefixed(prefix: &str, m: &String) -> (r: String)
    ensures
        r@ == prefix@ + m@,
{
    let mut v = chars_of(prefix);
    let mut w = chars_of(m.as_str());
    v.append(&mut w);
    string_of(&v)
}

/// Each message of `ms` with `prefix` before it.
pub open spec fn prefixed_msgs(prefix: Seq<char>, ms: Seq<String>) -> Seq<Seq<char>> {
    ms.map_values(|m: String| prefix + m@)
}

/// The parse warnings that a block gives: for a Mermaid diagram, each of its
/// warnings and, where it is invalid, each of its errors, with a prefix
/// saying which; none for any other block.
pub open spec fn node_warnings(node: Node) -> Seq<Seq<char>> {
    match node {
        Node::MermaidDiagram { validation_status, warnings, .. } => prefixed_msgs(
            "Mermaid diagram validation warning: "@,
            warnings@,
        ) + match validation_status {
            ValidationStatus::Invalid { errors } => prefixed_msgs(
                "Mermaid diagram validation error: "@,
                errors@,
            ),
            _ => seq![],
        },
        _ => seq![],
    }
}

fn prefixed_all(out: &mut Vec<String>, prefix: &str, ms: &Vec<String>)
    ensures
        strs(final(out)@) == strs(old(out)@) + prefixed_msgs(prefix@, ms@),
{
    let mut i: usize = 0;
    let ghost o = strs(out@);
    while i < ms.len()
        invariant
            i <= ms@.len(),
            strs(out@) == o + prefixed_msgs(prefix@, ms@.subrange(0, i as int)),
        decreases ms@.len() - i,
    {
        let ghost before = out@;
        let m = prefixed(prefix, &ms[i]);
        let ghost mv = m@;
        out.push(m);
        proof {
            assert(strs(out@) =~= strs(before).push(mv));
            assert(prefixed_msgs(prefix@, ms@.subrange(0, i + 1)) =~= prefixed_msgs(prefix@, ms@.subrange(0, i as int)).push(mv));
        }
        i = i + 1;
    }
    proof {
        assert(ms@.subrange(0, ms@.len() as int) =~= ms@);
    }
}

/// Parses the fenced code block that opens at line `start`. Its lines are
/// kept verbatim up to the first line that, trimmed, is the fence; without
/// one the block is unclosed, an error. A block tagged with the Mermaid
/// language (in any ASCII case) becomes a diagram: its directive read and
/// merged over the defaults, its body checked unless checking is switched
/// off, the external `tool` consulted when asked for. Also returns the index
/// after the closing fence and the warnings for the parse.
pub fn parse_code_block<F: Fn(String) -> Option<Vec<String>>>(
    lines: &Vec<Vec<char>>,
    start: usize,
    config: &ParserConfig,
    tool: &F,
    Ghost(tool_absent): Ghost<bool>,
) -> (r: Result<(Node, usize, Vec<String>), ParseError>)
    requires
        start < lines@.len() < usize::MAX,
        forall|s: String| tool.requires((s,)),
        tool_absent ==> forall|s: String, o: Option<Vec<String>>| tool.ensures((s,), o) ==> o is None,
    ensures
        closing_fence(lines@, start as int, config.code_fence_pattern@) is None <==> r is Err,
        r matches Err(e) ==> (e matches ParseError::UnclosedCodeBlock { span } && span.line == start + 1
            && span.column is None),
        r matches Ok((_, next, _)) ==> start < next <= lines@.len(),
        r matches Ok((node, next, _)) ==> code_block_result(lines@, start as int, *config, node, next as int, tool_absent),
        r matches Ok((node, _, w)) ==> strs(w@) == node_warnings(node),
{
    let t = trim_exec(&lines[start]);
    let k: usize = if config.code_fence_length <= t.len() {
        config.code_fence_length
    } else {
        t.len()
    };
    let tag = trim_exec(&slice(&t, k, t.len()));
    let fence = chars_of(config.code_fence_pattern.as_str());
    let n = lines.len();
    let mut i = start + 1;
    while i < lines.len()
        invariant
            start < i <= lines@.len(),
            n == lines@.len(),
            fence@ == config.code_fence_pattern@,
            fence_from(lines@, i as int, fence@) == fence_from(lines@, start + 1, fence@),
        ensures
            start < i <= lines@.len(),
            fence_from(lines@, i as int, fence@) == fence_from(lines@, start + 1, fence@),
            i < lines@.len() ==> trim(lines@[i as int]@) == fence@,
        decreases lines@.len() - i,
    {
        let tl = trim_exec(&lines[i]);
        if tl.len() == fence.len() && crate::text::starts_with_exec(&tl, &fence) {
            proof { assert(tl@.subrange(0, fence@.len() as int) =~= tl@); }
            break;
        }
        proof {
            if tl@ == fence@ {
                assert(tl@.subrange(0, fence@.len() as int) =~= tl@);
            }
        }
        i = i + 1;
    }
    if i >= lines.len() {
        return Err(ParseError::UnclosedCodeBlock { span: Span { line: start + 1, column: None } });
    }
    let mut body_lines: Vec<Vec<char>> = Vec::new();
    let mut j = start + 1;
    while j < i
        invariant
            start < j <= i < lines@.len(),
            views(body_lines@) == views(lines@.subrange(start + 1, j as int)),
        decreases i - j,
    {
        let piece = slice(&lines[j], 0, lines[j].len());
        proof {
            assert(lines@[j as int]@.subrange(0, lines@[j as int]@.len() as int) =~= lines@[j as int]@);
        }
        let ghost before = body_lines@;
        let ghost pv = piece@;
        body_lines.push(piece);
        proof {
            assert(body_lines@ == before.push(piece));
            assert(views(body_lines@) =~= views(before).push(pv));
            assert(views(body_lines@) =~= views(lines@.subrange(start + 1, j + 1)));
        }
        j = j + 1;
    }
    let code = join_exec(&body_lines, &chars_of("\n"));
    let lower_tag = chars_of(to_lower(string_of(&tag).as_str()).as_str());
    let lower_language = chars_of(to_lower(config.mermaid_language.as_str()).as_str());
    if tag_selects_mermaid(&tag, &lower_tag, &lower_language) {
        let (inline_config, diagram) = parse_frontmatter(&code);
        let merged_config = merge_config(&config.mermaid, inline_config);
        let ghost mut oc: Option<Option<Vec<String>>> = None;
        let (status, vwarnings) = if config.mermaid.validate_syntax {
            let outcome = if config.mermaid.use_cli_validation && trim_exec(&diagram).len() > 0 {
                let body = string_of(&trim_exec(&diagram));
                let ghost arg = body;
                let given = tool(body);
                proof {
                    assert(tool.ensures((arg,), given));
                }
                Some(given)
            } else {
                None
            };
            proof {
                oc = outcome;
            }
            let checked = validate_syntax(&diagram, outcome);
            checked
        } else {
            (ValidationStatus::NotValidated, Vec::new())
        };
        let mut warnings: Vec<String> = Vec::new();
        proof { assert(strs(warnings@) =~= seq![]); }
        prefixed_all(&mut warnings, "Mermaid diagram validation warning: ", &vwarnings);
        match &status {
            ValidationStatus::Invalid { errors } => {
                prefixed_all(&mut warnings, "Mermaid diagram validation error: ", errors);
            },
            _ => {},
        }
        let node = Node::MermaidDiagram {
            diagram: string_of(&diagram),
            config: Some(merged_config),
            validation_status: status,
            warnings: vwarnings,
        };
        proof {
            if config.mermaid.validate_syntax && config.mermaid.use_cli_validation && trim(diagram@).len() > 0 {
                assert(validation_result(node->diagram@, Some(oc->0), node->validation_status, node->warnings@));
            }
        }
        Ok((node, i + 1, warnings))
    } else {
        let lang = if tag.len() == 0 {
            None
        } else {
            Some(string_of(&tag))
        };
        let none: Vec<String> = Vec::new();
        proof { assert(strs(none@) =~= seq![]); }
        Ok((Node::CodeBlock { lang, code: string_of(&code) }, i + 1, none))
    }
}

/// Every character of `s` is whitespace.
pub open spec fn blank(s: Seq<char>) -> bool {
    forall|i: int| 0 <= i < s.len() ==> is_ws(#[trigger] s[i])
}

proof fn lemma_blank_trims_to_nothing(s: Seq<char>)
    requires
        blank(s),
    ensures
        trim(s).len() == 0,
{
    crate::text::lemma_skip_ws_bounds(s, 0);
    crate::text::lemma_trim_first(s);
}

proof fn lemma_join_blank(parts: Seq<Seq<char>>, sep: Seq<char>)
    requires
        blank(sep),
        forall|k: int| 0 <= k < parts.len() ==> blank(#[trigger] parts[k]),
    ensures
        blank(join(parts, sep)),
    decreases parts.len(),
{
    if parts.len() > 1 {
        lemma_join_blank(parts.drop_last(), sep);
        let a = join(parts.drop_last(), sep);
        let l = parts.last();
        assert(parts.last() == parts[parts.len() - 1]);
        assert forall|i: int| 0 <= i < (a + sep + l).len() implies is_ws(#[trigger] (a + sep + l)[i]) by {
            if i < a.len() {
            } else if i < a.len() + sep.len() {
                assert((a + sep + l)[i] == sep[i - a.len()]);
            } else {
                assert((a + sep + l)[i] == l[i - a.len() - sep.len()]);
            }
        }
    } else if parts.len() == 1 {
        assert(blank(parts[0]));
    }
}

proof fn lemma_lines_of_blank(s: Seq<char>)
    requires
        blank(s),
    ensures
        forall|k: int| 0 <= k < lines_of(s).len() ==> blank(#[trigger] lines_of(s)[k]),
    decreases s.len(),
{
    if s.len() > 0 {
        let i = crate::inline::find_char(s, 0, '\n');
        crate::inline::lemma_find_char(s, 0, '\n');
        if i >= s.len() {
            assert(blank(crate::text::strip_cr(s)));
        } else {
            let rest = s.subrange(i + 1, s.len() as int);
            assert(blank(rest));
            lemma_lines_of_blank(rest);
            assert(blank(crate::text::strip_cr(s.subrange(0, i))));
            assert forall|k: int| 0 <= k < lines_of(s).len() implies blank(#[trigger] lines_of(s)[k]) by {
                if k > 0 {
                    assert(lines_of(s)[k] == lines_of(rest)[k - 1]);
                }
            }
        }
    }
}

proof fn lemma_blank_body_has_no_directive(body: Seq<char>)
    requires
        blank(body),
    ensures
        stored_diagram(body) == body,
{
    lemma_lines_of_blank(body);
    reveal_strlit("%%{");
    let ls = lines_of(body);
    if ls.len() > 0 {
        lemma_blank_trims_to_nothing(ls[0]);
    }
    if ls.len() > 1 {
        lemma_blank_trims_to_nothing(ls[1]);
    }
}

/// A Mermaid block whose body holds nothing but whitespace is still a
/// diagram node, and, where checking is on, one marked invalid for being empty.
pub proof fn lemma_blank_mermaid_block_is_invalid(
    lines: Seq<Vec<char>>,
    start: int,
    config: ParserConfig,
    node: Node,
    next: int,
    tool_absent: bool,
)
    requires
        0 <= start,
        code_block_result(lines, start, config, node, next, tool_absent),
        ({
            let tag = fence_tag(lines[start]@, config.code_fence_length as int);
            selects_mermaid(tag, config.mermaid_language@)
        }),
        config.mermaid.validate_syntax,
        forall|j: int| start < j < next - 1 ==> blank(#[trigger] lines[j]@),
    ensures
        node matches Node::MermaidDiagram { validation_status, .. } && (validation_status matches ValidationStatus::Invalid {
            errors,
        } && crate::mermaid::strs(errors@) == seq!["Mermaid diagram is empty"@]),
{
    lemma_fence_from(lines, start + 1, config.code_fence_pattern@);
    let close = closing_fence(lines, start, config.code_fence_pattern@)->0;
    let body = views(lines.subrange(start + 1, close));
    reveal_strlit("\n");
    assert forall|k: int| 0 <= k < body.len() implies blank(#[trigger] body[k]) by {
        assert(body[k] == lines[start + 1 + k]@);
    }
    lemma_join_blank(body, "\n"@);
    let code = join(body, "\n"@);
    lemma_blank_body_has_no_directive(code);
    lemma_blank_trims_to_nothing(code);
}

} // verus!
