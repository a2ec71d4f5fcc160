//! Tokenizing Markdown text into the library's event stream, with pulldown-cmark
//! as the parser.
use vstd::prelude::*;
use crate::event::MdEvent;
use crate::event;

verus! {

/// The events that pulldown-cmark produces for a text, with every extension of
/// `Options::all()` enabled (tables, footnotes, strikethrough, task lists, smart
/// punctuation).
pub uninterp spec fn markdown_events(text: Seq<char>) -> Seq<MdEvent>;

/// Relies on pulldown_cmark::Parser::new_ext with Options::all(): the events depend on
/// the text alone, and an empty text gives none.
#[verifier::external_body]
pub(crate) fn tokenize(text: &str) -> (r: Vec<MdEvent>)
    ensures
        r@ == markdown_events(text@),
        text@.len() == 0 ==> r@.len() == 0,
{
    pulldown_cmark::Parser::new_ext(text, pulldown_cmark::Options::all()).map(event_from).collect()
}

/// Relies on pulldown_cmark::CowStr::into_string, which gives the string's text as an
/// owned `String`.
#[verifier::external_body]
fn cow_into_string(s: pulldown_cmark::CowStr) -> String {
    s.into_string()
}

fn alignment_from(a: &pulldown_cmark::Alignment) -> event::ColumnAlign {
    match a {
        pulldown_cmark::Alignment::None => event::ColumnAlign::Unspecified,
        pulldown_cmark::Alignment::Left => event::ColumnAlign::Left,
        pulldown_cmark::Alignment::Center => event::ColumnAlign::Center,
        pulldown_cmark::Alignment::Right => event::ColumnAlign::Right,
    }
}

fn link_type_from(t: pulldown_cmark::LinkType) -> event::LinkKind {
    match t {
        pulldown_cmark::LinkType::Inline => event::LinkKind::Inline,
        pulldown_cmark::LinkType::Reference => event::LinkKind::Reference,
        pulldown_cmark::LinkType::ReferenceUnknown => event::LinkKind::ReferenceUnknown,
        pulldown_cmark::LinkType::Collapsed => event::LinkKind::Collapsed,
        pulldown_cmark::LinkType::CollapsedUnknown => event::LinkKind::CollapsedUnknown,
        pulldown_cmark::LinkType::Shortcut => event::LinkKind::Shortcut,
        pulldown_cmark::LinkType::ShortcutUnknown => event::LinkKind::ShortcutUnknown,
        pulldown_cmark::LinkType::Autolink => event::LinkKind::Autolink,
        pulldown_cmark::LinkType::Email => event::LinkKind::Email,
    }
}

fn alignments_from(v: Vec<pulldown_cmark::Alignment>) -> (r: Vec<event::ColumnAlign>)
    ensures
        r.len() == v.len(),
{
    let mut r: Vec<event::ColumnAlign> = Vec::new();
    let mut i: usize = 0;
    while i < v.len()
        invariant
            i <= v.len(),
            r.len() == i,
        decreases v.len() - i,
    {
        r.push(alignment_from(&v[i]));
        i = i + 1;
    }
    r
}

fn tag_from(t: pulldown_cmark::Tag) -> event::MdTag {
    match t {
        pulldown_cmark::Tag::Paragraph => event::MdTag::Paragraph,
        pulldown_cmark::Tag::Heading(level) => event::MdTag::Heading(level),
        pulldown_cmark::Tag::BlockQuote => event::MdTag::BlockQuote,
        pulldown_cmark::Tag::CodeBlock(pulldown_cmark::CodeBlockKind::Indented) => event::MdTag::CodeBlock(
            event::CodeKind::Indented,
        ),
        pulldown_cmark::Tag::CodeBlock(pulldown_cmark::CodeBlockKind::Fenced(info)) => event::MdTag::CodeBlock(
            event::CodeKind::Fenced(cow_into_string(info)),
        ),
        pulldown_cmark::Tag::List(start) => event::MdTag::List(start),
        pulldown_cmark::Tag::Item => event::MdTag::Item,
        pulldown_cmark::Tag::FootnoteDefinition(label) => event::MdTag::FootnoteDefinition(
            cow_into_string(label),
        ),
        pulldown_cmark::Tag::Table(alignments) => event::MdTag::Table(alignments_from(alignments)),
        pulldown_cmark::Tag::TableHead => event::MdTag::TableHead,
        pulldown_cmark::Tag::TableRow => event::MdTag::TableRow,
        pulldown_cmark::Tag::TableCell => event::MdTag::TableCell,
        pulldown_cmark::Tag::Emphasis => event::MdTag::Emphasis,
        pulldown_cmark::Tag::Strong => event::MdTag::Strong,
        pulldown_cmark::Tag::Strikethrough => event::MdTag::Strikethrough,
        pulldown_cmark::Tag::Link(kind, dest, title) => event::MdTag::Link(
            link_type_from(kind),
            cow_into_string(dest),
            cow_into_string(title),
        ),
        pulldown_cmark::Tag::Image(kind, dest, title) => event::MdTag::Image(
            link_type_from(kind),
            cow_into_string(dest),
            cow_into_string(title),
        ),
    }
}

fn event_from(e: pulldown_cmark::Event) -> MdEvent {
    match e {
        pulldown_cmark::Event::Start(t) => MdEvent::Start(tag_from(t)),
        pulldown_cmark::Event::End(t) => MdEvent::End(tag_from(t)),
        pulldown_cmark::Event::Text(s) => MdEvent::Text(cow_into_string(s)),
        pulldown_cmark::Event::Code(s) => MdEvent::Code(cow_into_string(s)),
        pulldown_cmark::Event::Html(s) => MdEvent::Html(cow_into_string(s)),
        pulldown_cmark::Event::FootnoteReference(s) => MdEvent::FootnoteReference(
            cow_into_string(s),
        ),
        pulldown_cmark::Event::SoftBreak => MdEvent::SoftBreak,
        pulldown_cmark::Event::HardBreak => MdEvent::HardBreak,
        pulldown_cmark::Event::Rule => MdEvent::Rule,
        pulldown_cmark::Event::TaskListMarker(checked) => MdEvent::TaskListMarker(checked),
    }
}

} // verus!
