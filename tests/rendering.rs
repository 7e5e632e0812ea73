use md_parser::{escape_html, parse_inline, render_inline, render_list_item, Inline, ListItem};

#[test]
fn escapes_the_five_special_characters() {
    assert_eq!(escape_html("a & b < c > d \" e ' f"), "a &amp; b &lt; c &gt; d &quot; e &#39; f");
    assert_eq!(escape_html(""), "");
    assert_eq!(escape_html("plain"), "plain");
}

#[test]
fn renders_nested_inline_elements() {
    let els = parse_inline("**b *i* c** [l](u?a=1&b=2) ![a<](p) `x<y` ~~s~~");
    let html: String = els.iter().map(render_inline).collect();
    assert_eq!(
        html,
        "<strong>b <em>i</em> c</strong> <a href=\"u?a=1&amp;b=2\">l</a> <img src=\"p\" alt=\"a&lt;\" /> <code>x&lt;y</code> <del>s</del>"
    );
}

#[test]
fn renders_task_items_with_children() {
    let item = ListItem {
        content: vec![Inline::Text { content: "top".to_string() }],
        children: vec![ListItem {
            content: vec![Inline::Text { content: "done".to_string() }],
            children: vec![],
            checked: Some(true),
        }],
        checked: Some(false),
    };
    assert_eq!(
        render_list_item(&item),
        "<li><input type=\"checkbox\" disabled> top<ul><li><input type=\"checkbox\" disabled checked> done</li></ul></li>"
    );
}
