//! HTML for inline elements and list items, and HTML escaping.
use vstd::prelude::*;
use crate::ast::{Inline, ListItem};
use crate::text::chars_of;

verus! {

/// What `c` becomes in HTML text: `&`, `<`, `>`, `"` and `'` as entities.
pub open spec fn escape_char(c: char) -> Seq<char> {
    if c == '&' {
        "&amp;"@
    } else if c == '<' {
        "&lt;"@
    } else if c == '>' {
        "&gt;"@
    } else if c == '"' {
        "&quot;"@
    } else if c == '\'' {
        "&#39;"@
    } else {
        seq![c]
    }
}

/// `s` with every character escaped.
pub open spec fn escaped(s: Seq<char>) -> Seq<char>
    decreases s.len(),
{
    if s.len() == 0 {
        seq![]
    } else {
        escaped(s.drop_last()) + escape_char(s.last())
    }
}

fn push_str(out: &mut Vec<char>, s: &str)
    ensures
        final(out)@ == old(out)@ + s@,
{
    let mut t = chars_of(s);
    out.append(&mut t);
}

fn push_escaped(out: &mut Vec<char>, s: &Vec<char>)
    ensures
        final(out)@ == old(out)@ + escaped(s@),
{
    let ghost o = out@;
    let mut i: usize = 0;
    while i < s.len()
        invariant
            i <= s@.len(),
            out@ == o + escaped(s@.subrange(0, i as int)),
        decreases s@.len() - i,
    {
        let c = s[i];
        if c == '&' {
            push_str(out, "&amp;");
        } else if c == '<' {
            push_str(out, "&lt;");
        } else if c == '>' {
            push_str(out, "&gt;");
        } else if c == '"' {
            push_str(out, "&quot;");
        } else if c == '\'' {
            push_str(out, "&#39;");
        } else {
            out.push(c);
        }
        proof {
            assert(s@.subrange(0, i + 1).drop_last() =~= s@.subrange(0, i as int));
            assert(out@ =~= o + escaped(s@.subrange(0, i + 1)));
        }
        i = i + 1;
    }
    proof {
        assert(s@.subrange(0, s@.len() as int) =~= s@);
    }
}

/// `text` with `&`, `<`, `>`, `"` and `'` written as HTML entities.
pub fn escape_html(text: &str) -> (r: String)
    ensures
        r@ == escaped(text@),
{
    let mut out: Vec<char> = Vec::new();
    push_escaped(&mut out, &chars_of(text));
    crate::text::string_of(&out)
}

/// The HTML of an inline element.
pub open spec fn inline_html(x: Inline) -> Seq<char>
    decreases x,
{
    match x {
        Inline::Text { content } => escaped(content@),
        Inline::Bold { content } => "<strong>"@ + inlines_html(content, content.len() as int)
            + "</strong>"@,
        Inline::Italic { content } => "<em>"@ + inlines_html(content, content.len() as int)
            + "</em>"@,
        Inline::Strikethrough { content } => "<del>"@ + inlines_html(content, content.len() as int)
            + "</del>"@,
        Inline::Code { content } => "<code>"@ + escaped(content@) + "</code>"@,
        Inline::Link { text, url } => "<a href=\""@ + escaped(url@) + "\">"@ + inlines_html(
            text,
            text.len() as int,
        ) + "</a>"@,
        Inline::Image { alt, url } => "<img src=\""@ + escaped(url@) + "\" alt=\""@ + escaped(
            alt@,
        ) + "\" />"@,
    }
}

/// The HTML of the first `n` elements of `v`, one after another.
pub open spec fn inlines_html(v: Vec<Inline>, n: int) -> Seq<char>
    decreases v, n,
{
    if n <= 0 || n > v.len() {
        seq![]
    } else {
        inlines_html(v, n - 1) + inline_html(v[n - 1])
    }
}

/// Appends the HTML of each element of `v`.
fn render_all_into(v: &Vec<Inline>, out: &mut Vec<char>)
    ensures
        final(out)@ == old(out)@ + inlines_html(*v, v@.len() as int),
    decreases v, 1int,
{
    let ghost o = out@;
    let mut i: usize = 0;
    while i < v.len()
        invariant
            i <= v@.len(),
            out@ == o + inlines_html(*v, i as int),
        decreases v@.len() - i,
    {
        proof { vstd::std_specs::vec::axiom_vec_index_decreases(*v, i as int); }
        render_inline_into(&v[i], out);
        proof {
            assert(out@ =~= o + inlines_html(*v, i + 1));
        }
        i = i + 1;
    }
}

/// Appends the HTML of `x`.
fn render_inline_into(x: &Inline, out: &mut Vec<char>)
    ensures
        final(out)@ == old(out)@ + inline_html(*x),
    decreases x, 0int,
{
    let ghost o = out@;
    match x {
        Inline::Text { content } => {
            push_escaped(out, &chars_of(content.as_str()));
        },
        Inline::Bold { content } => {
            push_str(out, "<strong>");
            render_all_into(content, out);
            push_str(out, "</strong>");
        },
        Inline::Italic { content } => {
            push_str(out, "<em>");
            render_all_into(content, out);
            push_str(out, "</em>");
        },
        Inline::Strikethrough { content } => {
            push_str(out, "<del>");
            render_all_into(content, out);
            push_str(out, "</del>");
        },
        Inline::Code { content } => {
            push_str(out, "<code>");
            push_escaped(out, &chars_of(content.as_str()));
            push_str(out, "</code>");
        },
        Inline::Link { text, url } => {
            push_str(out, "<a href=\"");
            push_escaped(out, &chars_of(url.as_str()));
            push_str(out, "\">");
            render_all_into(text, out);
            push_str(out, "</a>");
        },
        Inline::Image { alt, url } => {
            push_str(out, "<img src=\"");
            push_escaped(out, &chars_of(url.as_str()));
            push_str(out, "\" alt=\"");
            push_escaped(out, &chars_of(alt.as_str()));
            push_str(out, "\" />");
        },
    }
    proof {
        assert(out@ =~= o + inline_html(*x));
    }
}

/// The HTML of an inline element.
pub fn render_inline(x: &Inline) -> (r: String)
    ensures
        r@ == inline_html(*x),
{
    let mut out: Vec<char> = Vec::new();
    render_inline_into(x, &mut out);
    proof { assert(out@ =~= inline_html(*x)); }
    crate::text::string_of(&out)
}

/// The checkbox that starts a task item.
pub open spec fn checkbox_html(checked: Option<bool>) -> Seq<char> {
    match checked {
        Some(true) => "<input type=\"checkbox\" disabled checked> "@,
        Some(false) => "<input type=\"checkbox\" disabled> "@,
        None => seq![],
    }
}

/// The HTML of a list item: its checkbox and text, then its children as a
/// nested list.
pub open spec fn item_html(it: ListItem) -> Seq<char>
    decreases it, 0int,
{
    "<li>"@ + checkbox_html(it.checked) + inlines_html(it.content, it.content.len() as int) + (
    if it.children.len() > 0 {
        "<ul>"@ + items_html(it.children, it.children.len() as int) + "</ul>"@
    } else {
        seq![]
    }) + "</li>"@
}

/// The HTML of the first `n` items of `v`, one after another.
pub open spec fn items_html(v: Vec<ListItem>, n: int) -> Seq<char>
    decreases v, n,
{
    if n <= 0 || n > v.len() {
        seq![]
    } else {
        items_html(v, n - 1) + item_html(v[n - 1])
    }
}

fn render_items_into(v: &Vec<ListItem>, out: &mut Vec<char>)
    ensures
        final(out)@ == old(out)@ + items_html(*v, v@.len() as int),
    decreases v, 1int,
{
    let ghost o = out@;
    let mut i: usize = 0;
    while i < v.len()
        invariant
            i <= v@.len(),
            out@ == o + items_html(*v, i as int),
        decreases v@.len() - i,
    {
        proof { vstd::std_specs::vec::axiom_vec_index_decreases(*v, i as int); }
        render_item_into(&v[i], out);
        proof {
            assert(out@ =~= o + items_html(*v, i + 1));
        }
        i = i + 1;
    }
}

fn render_item_into(it: &ListItem, out: &mut Vec<char>)
    ensures
        final(out)@ == old(out)@ + item_html(*it),
    decreases it, 0int,
{
    let ghost o = out@;
    push_str(out, "<li>");
    match it.checked {
        Some(true) => push_str(out, "<input type=\"checkbox\" disabled checked> "),
        Some(false) => push_str(out, "<input type=\"checkbox\" disabled> "),
        None => {},
    }
    let ghost o2 = out@;
    render_all_into(&it.content, out);
    if it.children.len() > 0 {
        push_str(out, "<ul>");
        render_items_into(&it.children, out);
        push_str(out, "</ul>");
    }
    push_str(out, "</li>");
    proof {
        assert(o2 =~= o + "<li>"@ + checkbox_html(it.checked));
        assert(out@ =~= o + item_html(*it));
    }
}

/// The HTML of a list item and, nested, of its children.
pub fn render_list_item(it: &ListItem) -> (r: String)
    ensures
        r@ == item_html(*it),
{
    let mut out: Vec<char> = Vec::new();
    render_item_into(it, &mut out);
    proof { assert(out@ =~= item_html(*it)); }
    crate::text::string_of(&out)
}

} // verus!
