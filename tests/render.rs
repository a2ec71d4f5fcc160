use blog::event::{CodeKind, ColumnAlign, LinkKind, MdEvent, MdTag};
use blog::html::{render_html, render_markdown, HtmlWriter};

fn s(x: &str) -> String {
    x.to_string()
}

fn para(text: &str) -> Vec<MdEvent> {
    vec![
        MdEvent::Start(MdTag::Paragraph),
        MdEvent::Text(s(text)),
        MdEvent::End(MdTag::Paragraph),
    ]
}

#[test]
fn fenced_code_uses_first_word_of_info() {
    let html = render_markdown("```rust ignore\nfn main() {}\n```\n");
    assert_eq!(html, "<pre><code class=\"language-rust\">fn main() {}\n</code></pre>\n");
}

#[test]
fn code_block_without_language_has_no_class() {
    let events = vec![
        MdEvent::Start(MdTag::CodeBlock(CodeKind::Fenced(s("")))),
        MdEvent::Text(s("x\n")),
        MdEvent::End(MdTag::CodeBlock(CodeKind::Fenced(s("")))),
        MdEvent::Start(MdTag::CodeBlock(CodeKind::Indented)),
        MdEvent::Text(s("y\n")),
        MdEvent::End(MdTag::CodeBlock(CodeKind::Indented)),
    ];
    assert_eq!(
        render_html(events),
        "<pre><code>x\n</code></pre>\n<pre><code>y\n</code></pre>\n"
    );
}

#[test]
fn code_block_after_text_starts_a_line() {
    let events = vec![
        MdEvent::Text(s("t")),
        MdEvent::Start(MdTag::CodeBlock(CodeKind::Fenced(s("a<b c")))),
        MdEvent::End(MdTag::CodeBlock(CodeKind::Fenced(s("a<b c")))),
    ];
    assert_eq!(
        render_html(events),
        "t\n<pre><code class=\"language-a&lt;b\"></code></pre>\n"
    );
}

#[test]
fn footnotes_numbered_by_first_occurrence() {
    let mut events = vec![
        MdEvent::Start(MdTag::Paragraph),
        MdEvent::Text(s("x")),
        MdEvent::FootnoteReference(s("a")),
        MdEvent::FootnoteReference(s("b")),
        MdEvent::End(MdTag::Paragraph),
    ];
    for (label, text) in [("b", "B"), ("a", "A")] {
        events.push(MdEvent::Start(MdTag::FootnoteDefinition(s(label))));
        events.extend(para(text));
        events.push(MdEvent::End(MdTag::FootnoteDefinition(s(label))));
    }
    let expected = String::new()
        + "<p>x<sup class=\"footnote-reference\"><a href=\"#a\">1</a></sup>"
        + "<sup class=\"footnote-reference\"><a href=\"#b\">2</a></sup></p>\n"
        + "<div class=\"footnote-definition\" id=\"b\"><sup class=\"footnote-definition-label\">2</sup>\n<p>B</p>\n</div>\n"
        + "<div class=\"footnote-definition\" id=\"a\"><sup class=\"footnote-definition-label\">1</sup>\n<p>A</p>\n</div>\n";
    assert_eq!(render_html(events), expected);
}

#[test]
fn footnote_definition_before_reference_takes_first_number() {
    let events = vec![
        MdEvent::Start(MdTag::FootnoteDefinition(s("z"))),
        MdEvent::End(MdTag::FootnoteDefinition(s("z"))),
        MdEvent::FootnoteReference(s("y")),
        MdEvent::FootnoteReference(s("z")),
    ];
    let expected = String::new()
        + "<div class=\"footnote-definition\" id=\"z\"><sup class=\"footnote-definition-label\">1</sup></div>\n"
        + "<sup class=\"footnote-reference\"><a href=\"#y\">2</a></sup>"
        + "<sup class=\"footnote-reference\"><a href=\"#z\">1</a></sup>";
    assert_eq!(render_html(events), expected);
}

#[test]
fn footnotes_from_markdown_text() {
    let html = render_markdown("One[^a] two[^b].\n\n[^b]: Bee\n\n[^a]: Ay\n");
    assert!(html.contains("<a href=\"#a\">1</a>"));
    assert!(html.contains("<a href=\"#b\">2</a>"));
    assert!(html.contains("id=\"b\"><sup class=\"footnote-definition-label\">2</sup>"));
    assert!(html.contains("id=\"a\"><sup class=\"footnote-definition-label\">1</sup>"));
}

fn cell(text: &str) -> Vec<MdEvent> {
    vec![
        MdEvent::Start(MdTag::TableCell),
        MdEvent::Text(s(text)),
        MdEvent::End(MdTag::TableCell),
    ]
}

#[test]
fn table_cells_take_their_column_alignment() {
    let aligns = vec![ColumnAlign::Left, ColumnAlign::Unspecified, ColumnAlign::Right];
    let mut events = vec![
        MdEvent::Start(MdTag::Table(aligns.clone())),
        MdEvent::Start(MdTag::TableHead),
    ];
    for t in ["a", "b", "c"] {
        events.extend(cell(t));
    }
    events.push(MdEvent::End(MdTag::TableHead));
    events.push(MdEvent::Start(MdTag::TableRow));
    for t in ["1", "2", "3"] {
        events.extend(cell(t));
    }
    events.push(MdEvent::End(MdTag::TableRow));
    events.push(MdEvent::End(MdTag::Table(aligns)));
    let expected = String::new()
        + "<table><thead><tr><th align=\"left\">a</th><th>b</th><th align=\"right\">c</th>"
        + "</tr></thead><tbody>\n"
        + "<tr><td align=\"left\">1</td><td>2</td><td align=\"right\">3</td></tr>\n"
        + "</tbody></table>\n";
    assert_eq!(render_html(events), expected);
}

#[test]
fn table_from_markdown_text() {
    let html = render_markdown("| a | b | c |\n|:--|---|--:|\n| 1 | 2 | 3 |\n");
    let expected = String::new()
        + "<table><thead><tr><th align=\"left\">a</th><th>b</th><th align=\"right\">c</th>"
        + "</tr></thead><tbody>\n"
        + "<tr><td align=\"left\">1</td><td>2</td><td align=\"right\">3</td></tr>\n"
        + "</tbody></table>\n";
    assert_eq!(html, expected);
}

#[test]
fn centered_column_and_extra_cells() {
    let events = vec![
        MdEvent::Start(MdTag::Table(vec![ColumnAlign::Center])),
        MdEvent::Start(MdTag::TableRow),
        MdEvent::Start(MdTag::TableCell),
        MdEvent::End(MdTag::TableCell),
        MdEvent::Start(MdTag::TableCell),
        MdEvent::End(MdTag::TableCell),
        MdEvent::End(MdTag::TableRow),
    ];
    assert_eq!(
        render_html(events),
        "<table><tr><th align=\"center\"></th><th></th></tr>\n"
    );
}

#[test]
fn empty_event_stream_renders_nothing() {
    assert_eq!(render_html(vec![]), "");
    assert_eq!(render_markdown(""), "");
}

#[test]
fn text_is_html_escaped() {
    let html = render_html(vec![MdEvent::Text(s("a<b & \"c\" > d"))]);
    assert_eq!(html, "a&lt;b &amp; &quot;c&quot; &gt; d");
}

#[test]
fn inline_code_with_line_feed_becomes_a_block() {
    let events = vec![MdEvent::Code(s("a<b")), MdEvent::Code(s("x\ny"))];
    assert_eq!(
        render_html(events),
        "<code>a&lt;b</code><pre><code>x\ny</code></pre>"
    );
}

#[test]
fn breaks_rules_and_raw_html() {
    let events = vec![
        MdEvent::Text(s("a")),
        MdEvent::SoftBreak,
        MdEvent::Text(s("b")),
        MdEvent::HardBreak,
        MdEvent::Html(s("<div>")),
        MdEvent::Rule,
        MdEvent::Rule,
    ];
    assert_eq!(
        render_html(events),
        "a\nb<br />\n<div>\n<hr />\n<hr />\n"
    );
}

#[test]
fn headings_and_lists() {
    let mut events = vec![MdEvent::Start(MdTag::Heading(3)), MdEvent::Text(s("H")), MdEvent::End(MdTag::Heading(3))];
    events.push(MdEvent::Start(MdTag::List(Some(1))));
    events.push(MdEvent::Start(MdTag::Item));
    events.push(MdEvent::Text(s("one")));
    events.push(MdEvent::End(MdTag::Item));
    events.push(MdEvent::End(MdTag::List(Some(1))));
    events.push(MdEvent::Start(MdTag::List(Some(42))));
    events.push(MdEvent::End(MdTag::List(Some(42))));
    events.push(MdEvent::Start(MdTag::List(None)));
    events.push(MdEvent::Start(MdTag::Item));
    events.push(MdEvent::TaskListMarker(true));
    events.push(MdEvent::Text(s("done")));
    events.push(MdEvent::End(MdTag::Item));
    events.push(MdEvent::Start(MdTag::Item));
    events.push(MdEvent::TaskListMarker(false));
    events.push(MdEvent::End(MdTag::Item));
    events.push(MdEvent::End(MdTag::List(None)));
    let expected = String::new()
        + "<h3>H</h3>\n<ol>\n<li>one</li>\n</ol>\n<ol start=\"42\">\n</ol>\n<ul>\n"
        + "<li><input disabled=\"\" type=\"checkbox\" checked=\"\"/>\ndone</li>\n"
        + "<li><input disabled=\"\" type=\"checkbox\"/>\n</li>\n</ul>\n";
    assert_eq!(render_html(events), expected);
}

#[test]
fn paragraph_after_text_starts_a_line() {
    let mut events = vec![MdEvent::Start(MdTag::BlockQuote), MdEvent::Text(s("q"))];
    events.extend(para("p"));
    events.push(MdEvent::End(MdTag::BlockQuote));
    assert_eq!(
        render_html(events),
        "<blockquote>\nq\n<p>p</p>\n</blockquote>\n"
    );
}

#[test]
fn emphasis_strong_and_strikethrough() {
    let html = render_markdown("*a* **b** ~~c~~\n");
    assert_eq!(html, "<p><em>a</em> <strong>b</strong> <del>c</del></p>\n");
}

#[test]
fn links_escape_destination_and_title() {
    let events = vec![
        MdEvent::Start(MdTag::Link(LinkKind::Inline, s("a b&c"), s("T<"))),
        MdEvent::Text(s("x")),
        MdEvent::End(MdTag::Link(LinkKind::Inline, s("a b&c"), s("T<"))),
        MdEvent::Start(MdTag::Link(LinkKind::Email, s("me@x.org"), s(""))),
        MdEvent::End(MdTag::Link(LinkKind::Email, s("me@x.org"), s(""))),
    ];
    assert_eq!(
        render_html(events),
        "<a href=\"a%20b&amp;c\" title=\"T&lt;\">x</a><a href=\"mailto:me@x.org\"></a>"
    );
}

#[test]
fn image_alt_text_is_flattened() {
    let img = MdTag::Image(LinkKind::Inline, s("a b.png"), s("t"));
    let events = vec![
        MdEvent::Start(img.clone()),
        MdEvent::Text(s("x<")),
        MdEvent::Start(MdTag::Emphasis),
        MdEvent::Text(s("y")),
        MdEvent::End(MdTag::Emphasis),
        MdEvent::SoftBreak,
        MdEvent::FootnoteReference(s("n")),
        MdEvent::TaskListMarker(true),
        MdEvent::TaskListMarker(false),
        MdEvent::Code(s("c")),
        MdEvent::End(img),
        MdEvent::FootnoteReference(s("n")),
    ];
    assert_eq!(
        render_html(events),
        "<img src=\"a%20b.png\" alt=\"x&lt;y [1][x][ ]c\" title=\"t\" /><sup class=\"footnote-reference\"><a href=\"#n\">1</a></sup>"
    );
}

#[test]
fn image_left_open_is_closed() {
    let events = vec![
        MdEvent::Start(MdTag::Image(LinkKind::Inline, s("p.png"), s(""))),
        MdEvent::Text(s("alt")),
    ];
    assert_eq!(render_html(events), "<img src=\"p.png\" alt=\"alt\" />");
}

#[test]
fn image_from_markdown_text() {
    let html = render_markdown("![a *b*](x.png \"T\")\n");
    assert_eq!(html, "<p><img src=\"x.png\" alt=\"a b\" title=\"T\" /></p>\n");
}

#[test]
fn writer_runs_over_given_events() {
    let w = HtmlWriter::new(para("hi"));
    assert_eq!(w.run(), "<p>hi</p>\n");
}

#[test]
fn code_block_language_skips_leading_white_space() {
    let events = vec![
        MdEvent::Start(MdTag::CodeBlock(CodeKind::Fenced(s(" rust")))),
        MdEvent::End(MdTag::CodeBlock(CodeKind::Fenced(s(" rust")))),
    ];
    assert_eq!(
        render_html(events),
        "<pre><code class=\"language-rust\"></code></pre>\n"
    );
}

#[test]
fn code_block_language_ends_at_any_white_space() {
    for info in ["rust\tignore", "rust\u{3000}x", "rust\u{0B}x", "\u{A0}rust\u{2003}x"] {
        let events = vec![
            MdEvent::Start(MdTag::CodeBlock(CodeKind::Fenced(s(info)))),
            MdEvent::End(MdTag::CodeBlock(CodeKind::Fenced(s(info)))),
        ];
        assert_eq!(
            render_html(events),
            "<pre><code class=\"language-rust\"></code></pre>\n"
        );
    }
    let events = vec![
        MdEvent::Start(MdTag::CodeBlock(CodeKind::Fenced(s(" \t ")))),
        MdEvent::End(MdTag::CodeBlock(CodeKind::Fenced(s(" \t ")))),
    ];
    assert_eq!(render_html(events), "<pre><code></code></pre>\n");
}

#[test]
fn raw_html_tracks_the_line_end() {
    let events = vec![
        MdEvent::Html(s("<div>\n")),
        MdEvent::Start(MdTag::Paragraph),
        MdEvent::End(MdTag::Paragraph),
        MdEvent::Html(s("")),
        MdEvent::Rule,
        MdEvent::Html(s("<span>")),
        MdEvent::Start(MdTag::Item),
        MdEvent::End(MdTag::Item),
    ];
    assert_eq!(
        render_html(events),
        "<div>\n<p></p>\n<hr />\n<span>\n<li></li>\n"
    );
}
