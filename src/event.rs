//! The Markdown event stream that the HTML renderer consumes: block and inline
//! boundaries, text runs, breaks, links, images, footnotes and task markers.
use vstd::prelude::*;

verus! {

/// Horizontal alignment of a table column.
#[derive(Clone, Copy, Debug, PartialEq, Eq)]
pub enum ColumnAlign {
    /// No alignment was given.
    Unspecified,
    Left,
    Center,
    Right,
}

/// How a code block was written in the source.
#[derive(Clone, Debug, PartialEq, Eq)]
pub enum CodeKind {
    Indented,
    /// A fenced block, with its info string.
    Fenced(String),
}

/// How a link or image was written in the source.
#[derive(Clone, Copy, Debug, PartialEq, Eq)]
pub enum LinkKind {
    Inline,
    Reference,
    ReferenceUnknown,
    Collapsed,
    CollapsedUnknown,
    Shortcut,
    ShortcutUnknown,
    Autolink,
    Email,
}

/// An element that is opened by `MdEvent::Start` and closed by `MdEvent::End`.
#[derive(Clone, Debug, PartialEq, Eq)]
pub enum MdTag {
    Paragraph,
    /// A heading, with its level (1 to 6).
    Heading(u32),
    BlockQuote,
    CodeBlock(CodeKind),
    /// An ordered list with its first number, or an unordered list.
    List(Option<u64>),
    Item,
    /// A footnote definition, with its label.
    FootnoteDefinition(String),
    /// A table, with the alignment of each column.
    Table(Vec<ColumnAlign>),
    TableHead,
    TableRow,
    TableCell,
    Emphasis,
    Strong,
    Strikethrough,
    /// A link: its kind, destination and title.
    Link(LinkKind, String, String),
    /// An image: its kind, source and title; its content is the alt text.
    Image(LinkKind, String, String),
}

/// One structural token of a Markdown document.
#[derive(Clone, Debug, PartialEq, Eq)]
pub enum MdEvent {
    Start(MdTag),
    End(MdTag),
    Text(String),
    /// An inline code span.
    Code(String),
    /// Raw HTML, passed through unchanged.
    Html(String),
    /// A reference to a footnote, by label.
    FootnoteReference(String),
    SoftBreak,
    HardBreak,
    Rule,
    /// A task list marker, checked or not.
    TaskListMarker(bool),
}

} // verus!
