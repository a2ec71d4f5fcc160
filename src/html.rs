//! The HTML renderer: a line-oriented writer driven by a Markdown event stream.
//!
//! What it writes is specified as a left fold of `step` over the events, from
//! `initial_state()`; `html_of` is the whole output.
use vstd::prelude::*;
use crate::event::{CodeKind, ColumnAlign, LinkKind, MdEvent, MdTag};
use crate::tokenize::{markdown_events, tokenize};
use crate::text::{
    contains_newline, decimal, ends_with_newline, ends_with_newline_str, first_word,
    first_word_of, href_escaped, html_escaped, push_decimal, push_href_escaped, push_html_escaped,
};

verus! {

/// What the renderer remembers between two events.
pub struct RenderState {
    /// Whether the output so far ends at the start of a line.
    pub end_newline: bool,
    /// Whether table cells are body cells (`td`) rather than head cells (`th`).
    pub in_body: bool,
    /// The column alignments of the current table.
    pub aligns: Seq<ColumnAlign>,
    /// The index of the current cell in its row.
    pub cell: nat,
    /// Footnote labels in the order in which they were first seen; label `i` has number `i + 1`.
    pub labels: Seq<Seq<char>>,
    /// Inside an image's alt text: the nesting depth of open tags within it, and the
    /// image's title.
    pub alt: Option<(nat, Seq<char>)>,
}

pub open spec fn initial_state() -> RenderState {
    RenderState {
        end_newline: true,
        in_body: false,
        aligns: Seq::empty(),
        cell: 0,
        labels: Seq::empty(),
        alt: None,
    }
}

pub open spec fn with_newline(st: RenderState, b: bool) -> RenderState {
    RenderState { end_newline: b, ..st }
}

/// A line feed, unless the output is already at the start of a line.
pub open spec fn line_start(end_newline: bool) -> Seq<char> {
    if end_newline {
        Seq::empty()
    } else {
        "\n"@
    }
}

/// The position of the last occurrence of `name` in `labels`.
pub open spec fn label_index(labels: Seq<Seq<char>>, name: Seq<char>) -> Option<nat>
    decreases labels.len(),
{
    if labels.len() == 0 {
        None
    } else if labels.last() == name {
        Some((labels.len() - 1) as nat)
    } else {
        label_index(labels.drop_last(), name)
    }
}

/// The number of a footnote label: its place among the labels seen so far, or the
/// next number if it is new.
pub open spec fn footnote_number(labels: Seq<Seq<char>>, name: Seq<char>) -> nat {
    match label_index(labels, name) {
        Some(i) => i + 1,
        None => labels.len() + 1,
    }
}

/// The labels after `name` has been numbered.
pub open spec fn labels_after(labels: Seq<Seq<char>>, name: Seq<char>) -> Seq<Seq<char>> {
    if label_index(labels, name) is Some {
        labels
    } else {
        labels.push(name)
    }
}

/// The end of a cell's opening tag: its `align` attribute, if its column has one.
pub open spec fn align_attr(aligns: Seq<ColumnAlign>, i: nat) -> Seq<char> {
    if i < aligns.len() {
        match aligns[i as int] {
            ColumnAlign::Left => " align=\"left\">"@,
            ColumnAlign::Center => " align=\"center\">"@,
            ColumnAlign::Right => " align=\"right\">"@,
            ColumnAlign::Unspecified => ">"@,
        }
    } else {
        ">"@
    }
}

/// A `title` attribute, written only for a non-empty title.
pub open spec fn title_attr(title: Seq<char>) -> Seq<char> {
    if title.len() > 0 {
        "\" title=\""@ + html_escaped(title)
    } else {
        Seq::empty()
    }
}

/// What closes an image tag once its alt text is written.
pub open spec fn image_close(title: Seq<char>) -> Seq<char> {
    title_attr(title) + "\" />"@
}

/// The opening of a code block: a language class from the first word of a fenced
/// block's info string.
pub open spec fn code_open(kind: CodeKind) -> Seq<char> {
    match kind {
        CodeKind::Fenced(info) => {
            let lang = first_word(info@);
            if lang.len() == 0 {
                "<pre><code>"@
            } else {
                "<pre><code class=\"language-"@ + html_escaped(lang) + "\">"@
            }
        },
        CodeKind::Indented => "<pre><code>"@,
    }
}

/// The state and the text that an opening tag gives, outside alt text.
pub open spec fn start_step(st: RenderState, tag: MdTag) -> (RenderState, Seq<char>) {
    let ls = line_start(st.end_newline);
    match tag {
        MdTag::Paragraph => (with_newline(st, false), ls + "<p>"@),
        MdTag::Heading(level) => (
            with_newline(st, false),
            ls + "<h"@ + decimal(level as nat) + ">"@,
        ),
        MdTag::Table(aligns) => (
            RenderState { end_newline: false, aligns: aligns@, ..st },
            "<table>"@,
        ),
        MdTag::TableHead => (
            RenderState { end_newline: false, in_body: false, cell: 0, ..st },
            "<thead><tr>"@,
        ),
        MdTag::TableRow => (RenderState { end_newline: false, cell: 0, ..st }, "<tr>"@),
        MdTag::TableCell => (
            with_newline(st, false),
            (if st.in_body {
                "<td"@
            } else {
                "<th"@
            }) + align_attr(st.aligns, st.cell),
        ),
        MdTag::BlockQuote => (with_newline(st, true), ls + "<blockquote>\n"@),
        MdTag::CodeBlock(kind) => (with_newline(st, false), ls + code_open(kind)),
        MdTag::List(Some(start)) => (
            with_newline(st, true),
            if start == 1 {
                ls + "<ol>\n"@
            } else {
                ls + "<ol start=\""@ + decimal(start as nat) + "\">\n"@
            },
        ),
        MdTag::List(None) => (with_newline(st, true), ls + "<ul>\n"@),
        MdTag::Item => (with_newline(st, false), ls + "<li>"@),
        MdTag::Emphasis => (with_newline(st, false), "<em>"@),
        MdTag::Strong => (with_newline(st, false), "<strong>"@),
        MdTag::Strikethrough => (with_newline(st, false), "<del>"@),
        MdTag::Link(kind, dest, title) => (
            with_newline(st, false),
            "<a href=\""@ + (if kind is Email {
                "mailto:"@
            } else {
                Seq::empty()
            }) + href_escaped(dest@) + title_attr(title@) + "\">"@,
        ),
        MdTag::Image(_, dest, title) => (
            RenderState { end_newline: false, alt: Some((0nat, title@)), ..st },
            "<img src=\""@ + href_escaped(dest@) + "\" alt=\""@,
        ),
        MdTag::FootnoteDefinition(name) => (
            RenderState { end_newline: false, labels: labels_after(st.labels, name@), ..st },
            ls + "<div class=\"footnote-definition\" id=\""@ + html_escaped(name@)
                + "\"><sup class=\"footnote-definition-label\">"@ + decimal(
                footnote_number(st.labels, name@),
            ) + "</sup>"@,
        ),
    }
}

/// The state and the text that a closing tag gives, outside alt text.
pub open spec fn end_step(st: RenderState, tag: MdTag) -> (RenderState, Seq<char>) {
    match tag {
        MdTag::Paragraph => (with_newline(st, true), "</p>\n"@),
        MdTag::Heading(level) => (with_newline(st, true), "</h"@ + decimal(level as nat) + ">\n"@),
        MdTag::Table(_) => (with_newline(st, true), "</tbody></table>\n"@),
        MdTag::TableHead => (
            RenderState { end_newline: true, in_body: true, ..st },
            "</tr></thead><tbody>\n"@,
        ),
        MdTag::TableRow => (with_newline(st, true), "</tr>\n"@),
        MdTag::TableCell => (
            RenderState { end_newline: false, cell: st.cell + 1, ..st },
            if st.in_body {
                "</td>"@
            } else {
                "</th>"@
            },
        ),
        MdTag::BlockQuote => (with_newline(st, true), "</blockquote>\n"@),
        MdTag::CodeBlock(_) => (with_newline(st, true), "</code></pre>\n"@),
        MdTag::List(Some(_)) => (with_newline(st, true), "</ol>\n"@),
        MdTag::List(None) => (with_newline(st, true), "</ul>\n"@),
        MdTag::Item => (with_newline(st, true), "</li>\n"@),
        MdTag::Emphasis => (with_newline(st, false), "</em>"@),
        MdTag::Strong => (with_newline(st, false), "</strong>"@),
        MdTag::Strikethrough => (with_newline(st, false), "</del>"@),
        MdTag::Link(_, _, _) => (with_newline(st, false), "</a>"@),
        MdTag::Image(_, _, _) => (st, Seq::empty()),
        MdTag::FootnoteDefinition(_) => (with_newline(st, true), "</div>\n"@),
    }
}

/// The state and the text that an event gives inside an image's alt text, where
/// everything is flattened to escaped plain text.
pub open spec fn alt_step(st: RenderState, depth: nat, title: Seq<char>, e: MdEvent) -> (
    RenderState,
    Seq<char>,
) {
    match e {
        MdEvent::Start(_) => (RenderState { alt: Some((depth + 1, title)), ..st }, Seq::empty()),
        MdEvent::End(_) => if depth == 0 {
            (RenderState { end_newline: false, alt: None, ..st }, image_close(title))
        } else {
            (RenderState { alt: Some(((depth - 1) as nat, title)), ..st }, Seq::empty())
        },
        MdEvent::Text(t) => (with_newline(st, ends_with_newline(t@)), html_escaped(t@)),
        MdEvent::Code(t) => (with_newline(st, ends_with_newline(t@)), html_escaped(t@)),
        MdEvent::Html(t) => (with_newline(st, ends_with_newline(t@)), html_escaped(t@)),
        MdEvent::SoftBreak => (with_newline(st, false), " "@),
        MdEvent::HardBreak => (with_newline(st, false), " "@),
        MdEvent::Rule => (with_newline(st, false), " "@),
        MdEvent::FootnoteReference(name) => (
            RenderState { labels: labels_after(st.labels, name@), ..st },
            "["@ + decimal(footnote_number(st.labels, name@)) + "]"@,
        ),
        MdEvent::TaskListMarker(true) => (with_newline(st, false), "[x]"@),
        MdEvent::TaskListMarker(false) => (with_newline(st, false), "[ ]"@),
    }
}

/// The state and the text that one event gives.
pub open spec fn step(st: RenderState, e: MdEvent) -> (RenderState, Seq<char>) {
    match st.alt {
        Some((depth, title)) => alt_step(st, depth, title, e),
        None => match e {
            MdEvent::Start(tag) => start_step(st, tag),
            MdEvent::End(tag) => end_step(st, tag),
            MdEvent::Text(t) => (with_newline(st, ends_with_newline(t@)), html_escaped(t@)),
            MdEvent::Code(t) => (
                with_newline(st, false),
                if t@.contains('\n') {
                    "<pre><code>"@ + html_escaped(t@) + "</code></pre>"@
                } else {
                    "<code>"@ + html_escaped(t@) + "</code>"@
                },
            ),
            MdEvent::Html(h) => (
                with_newline(
                    st,
                    if h@.len() > 0 {
                        ends_with_newline(h@)
                    } else {
                        st.end_newline
                    },
                ),
                h@,
            ),
            MdEvent::SoftBreak => (with_newline(st, true), "\n"@),
            MdEvent::HardBreak => (with_newline(st, true), "<br />\n"@),
            MdEvent::Rule => (with_newline(st, true), line_start(st.end_newline) + "<hr />\n"@),
            MdEvent::FootnoteReference(name) => (
                RenderState { end_newline: false, labels: labels_after(st.labels, name@), ..st },
                "<sup class=\"footnote-reference\"><a href=\"#"@ + html_escaped(name@) + "\">"@
                    + decimal(footnote_number(st.labels, name@)) + "</a></sup>"@,
            ),
            MdEvent::TaskListMarker(true) => (
                with_newline(st, true),
                "<input disabled=\"\" type=\"checkbox\" checked=\"\"/>\n"@,
            ),
            MdEvent::TaskListMarker(false) => (
                with_newline(st, true),
                "<input disabled=\"\" type=\"checkbox\"/>\n"@,
            ),
        },
    }
}

/// The state after a sequence of events, and the text written for them.
pub open spec fn render_events(evs: Seq<MdEvent>) -> (RenderState, Seq<char>)
    decreases evs.len(),
{
    if evs.len() == 0 {
        (initial_state(), Seq::empty())
    } else {
        let (st, out) = render_events(evs.drop_last());
        let (st2, more) = step(st, evs.last());
        (st2, out + more)
    }
}

/// The HTML for a whole event stream; an image whose alt text is still open when
/// the stream ends is closed.
pub open spec fn html_of(evs: Seq<MdEvent>) -> Seq<char> {
    let (st, out) = render_events(evs);
    match st.alt {
        Some((_, title)) => out + image_close(title),
        None => out,
    }
}

/// A table cell takes its column's alignment in the same way in the head and in
/// the body: only the tag name differs. Closing the head switches to body cells and
/// keeps the alignments; a new row starts again at the first column.
pub proof fn lemma_cell_alignment(st: RenderState)
    requires
        st.alt is None,
    ensures
        step(st, MdEvent::Start(MdTag::TableCell)).1 == (if st.in_body {
            "<td"@
        } else {
            "<th"@
        }) + align_attr(st.aligns, st.cell),
        step(st, MdEvent::End(MdTag::TableCell)).1 == if st.in_body {
            "</td>"@
        } else {
            "</th>"@
        },
        step(st, MdEvent::End(MdTag::TableCell)).0.cell == st.cell + 1,
        step(st, MdEvent::End(MdTag::TableHead)).0.in_body,
        step(st, MdEvent::End(MdTag::TableHead)).0.aligns == st.aligns,
        step(st, MdEvent::Start(MdTag::TableRow)).0.cell == 0,
        step(st, MdEvent::Start(MdTag::TableRow)).0.aligns == st.aligns,
        step(st, MdEvent::Start(MdTag::TableRow)).0.in_body == st.in_body,
        st.cell < st.aligns.len() ==> align_attr(st.aligns, st.cell) == match st.aligns[st.cell as int] {
            ColumnAlign::Left => " align=\"left\">"@,
            ColumnAlign::Center => " align=\"center\">"@,
            ColumnAlign::Right => " align=\"right\">"@,
            ColumnAlign::Unspecified => ">"@,
        },
        st.cell >= st.aligns.len() ==> align_attr(st.aligns, st.cell) == ">"@,
{
}

/// The footnote label that an event may number: a reference's, or a definition's.
pub open spec fn footnote_label(e: MdEvent) -> Seq<char> {
    match e {
        MdEvent::FootnoteReference(name) => name@,
        MdEvent::Start(MdTag::FootnoteDefinition(name)) => name@,
        _ => Seq::empty(),
    }
}

proof fn lemma_step_labels(st: RenderState, e: MdEvent)
    ensures
        step(st, e).0.labels == st.labels || step(st, e).0.labels == labels_after(
            st.labels,
            footnote_label(e),
        ),
{
}

proof fn lemma_label_kept(labels: Seq<Seq<char>>, x: Seq<char>, name: Seq<char>)
    requires
        label_index(labels, name) is Some,
    ensures
        label_index(labels_after(labels, x), name) == label_index(labels, name),
{
    if label_index(labels, x) is None {
        assert(labels.push(x).drop_last() =~= labels);
    }
}

/// Footnote numbers are stable: once a label has been numbered by the first `k`
/// events, it has the same number after every later event, whether it next comes
/// as a reference or as a definition.
pub proof fn lemma_footnote_number_stable(evs: Seq<MdEvent>, k: int, name: Seq<char>)
    requires
        0 <= k <= evs.len(),
        label_index(render_events(evs.take(k)).0.labels, name) is Some,
    ensures
        label_index(render_events(evs).0.labels, name) == label_index(
            render_events(evs.take(k)).0.labels,
            name,
        ),
        footnote_number(render_events(evs).0.labels, name) == footnote_number(
            render_events(evs.take(k)).0.labels,
            name,
        ),
    decreases evs.len(),
{
    if k == evs.len() {
        assert(evs.take(k) =~= evs);
    } else {
        let prev = evs.drop_last();
        assert(prev.take(k) =~= evs.take(k));
        lemma_footnote_number_stable(prev, k, name);
        let st = render_events(prev).0;
        lemma_step_labels(st, evs.last());
        if step(st, evs.last()).0.labels != st.labels {
            lemma_label_kept(st.labels, footnote_label(evs.last()), name);
        }
    }
}

proof fn lemma_label_index_none(labels: Seq<Seq<char>>, name: Seq<char>)
    requires
        label_index(labels, name) is None,
    ensures
        !labels.contains(name),
    decreases labels.len(),
{
    if labels.len() > 0 {
        lemma_label_index_none(labels.drop_last(), name);
        assert forall|i: int| 0 <= i < labels.len() implies labels[i] != name by {
            if i < labels.len() - 1 {
                assert(labels.drop_last()[i] == labels[i]);
            }
        }
    }
}

/// No label is numbered twice: the labels seen so far are distinct, so distinct
/// labels have distinct numbers.
pub proof fn lemma_footnote_labels_distinct(evs: Seq<MdEvent>)
    ensures
        render_events(evs).0.labels.no_duplicates(),
    decreases evs.len(),
{
    if evs.len() > 0 {
        let prev = evs.drop_last();
        lemma_footnote_labels_distinct(prev);
        let st = render_events(prev).0;
        let x = footnote_label(evs.last());
        lemma_step_labels(st, evs.last());
        if label_index(st.labels, x) is None {
            lemma_label_index_none(st.labels, x);
            let l2 = st.labels.push(x);
            assert forall|i: int, j: int| 0 <= i < l2.len() && 0 <= j < l2.len() && i != j implies
                l2[i] != l2[j] by {
                if i < st.labels.len() && j < st.labels.len() {
                } else if i == st.labels.len() {
                    assert(l2[j] == st.labels[j]);
                } else {
                    assert(l2[i] == st.labels[i]);
                }
            }
        }
    }
}

/// A label seen for the first time gets the next number: one more than the number
/// of distinct labels seen before it.
pub proof fn lemma_new_footnote_number(evs: Seq<MdEvent>, e: MdEvent)
    requires
        label_index(render_events(evs).0.labels, footnote_label(e)) is None,
        render_events(evs).0.alt is None,
        e is FootnoteReference || e matches MdEvent::Start(MdTag::FootnoteDefinition(_)),
    ensures
        label_index(render_events(evs.push(e)).0.labels, footnote_label(e)) == Some(
            render_events(evs).0.labels.len(),
        ),
{
    lemma_render_push(evs, e);
    let labels = render_events(evs).0.labels;
    assert(labels.push(footnote_label(e)).last() == footnote_label(e));
}

enum TableState {
    Head,
    Body,
}

/// Renders a Markdown event stream to HTML, consuming the events in order.
pub struct HtmlWriter {
    /// The events not yet consumed; the next one is last.
    pending: Vec<MdEvent>,
    /// The events consumed so far.
    done: Ghost<Seq<MdEvent>>,
    /// The HTML written so far.
    out: String,
    /// Whether or not the last write wrote a newline.
    end_newline: bool,
    table_state: TableState,
    table_alignments: Vec<ColumnAlign>,
    table_cell_index: usize,
    /// Footnote labels in the order in which they were first seen.
    numbers: Vec<String>,
}

pub proof fn lemma_render_push(evs: Seq<MdEvent>, e: MdEvent)
    ensures
        render_events(evs.push(e)) == ({
            let (st, out) = render_events(evs);
            let (st2, more) = step(st, e);
            (st2, out + more)
        }),
{
    assert(evs.push(e).drop_last() =~= evs);
}

impl HtmlWriter {
    /// The whole event stream: what was consumed, then what is left.
    pub closed spec fn events(&self) -> Seq<MdEvent> {
        self.done@ + self.pending@.reverse()
    }

    /// Whether nothing has been consumed or written yet.
    pub closed spec fn is_fresh(&self) -> bool {
        self.done@.len() == 0
    }

    closed spec fn state(&self, alt: Option<(nat, Seq<char>)>) -> RenderState {
        RenderState {
            end_newline: self.end_newline,
            in_body: self.table_state is Body,
            aligns: self.table_alignments@,
            cell: self.table_cell_index as nat,
            labels: self.numbers@.map_values(|s: String| s@),
            alt,
        }
    }

    /// The consumed events give this writer's state and its output followed by `extra`.
    closed spec fn traces(&self, alt: Option<(nat, Seq<char>)>, extra: Seq<char>) -> bool {
        &&& render_events(self.done@) == (self.state(alt), self.out@ + extra)
        &&& self.table_cell_index <= self.done@.len()
        &&& self.numbers@.len() <= self.done@.len()
        &&& self.done@.len() + self.pending@.len() <= usize::MAX
    }

    /// The writer's fields agree with the events consumed so far.
    pub closed spec fn wf(&self) -> bool {
        self.traces(None, Seq::empty())
    }

    /// Either the fields agree with the events consumed so far, or every event is
    /// consumed and the output is complete.
    closed spec fn settled(&self) -> bool {
        ||| self.wf()
        ||| (self.pending@.len() == 0 && self.out@ == html_of(self.done@))
    }

    /// A writer at the start of `events`.
    pub fn new(events: Vec<MdEvent>) -> (w: Self)
        ensures
            w.wf(),
            w.is_fresh(),
            w.events() == events@,
    {
        let mut events = events;
        let mut pending: Vec<MdEvent> = Vec::new();
        let ghost all = events@;
        let total: usize = events.len();
        assert(events@ + pending@.reverse() =~= all);
        while events.len() > 0
            invariant
                events@ + pending@.reverse() == all,
                pending@.len() + events@.len() == all.len(),
                all.len() == total,
            decreases events.len(),
        {
            let ghost before = pending@.reverse();
            let e = events.pop().unwrap();
            pending.push(e);
            assert(pending@.reverse() =~= seq![e] + before);
            assert(events@ + pending@.reverse() =~= all);
        }
        assert(pending@.reverse() =~= all);
        let w = HtmlWriter {
            pending,
            done: Ghost(Seq::empty()),
            out: String::new(),
            end_newline: true,
            table_state: TableState::Head,
            table_alignments: Vec::new(),
            table_cell_index: 0,
            numbers: Vec::new(),
        };
        proof {
            assert(w.numbers@.map_values(|s: String| s@) =~= Seq::<Seq<char>>::empty());
            assert(w.out@ + Seq::<char>::empty() =~= Seq::<char>::empty());
            assert(w.done@ + w.pending@.reverse() =~= all);
        }
        w
    }

    /// Takes the next event off the stream.
    fn next_event(&mut self) -> (r: Option<MdEvent>)
        ensures
            final(self).events() == old(self).events(),
            final(self).out == old(self).out,
            final(self).end_newline == old(self).end_newline,
            final(self).table_state == old(self).table_state,
            final(self).table_alignments == old(self).table_alignments,
            final(self).table_cell_index == old(self).table_cell_index,
            final(self).numbers == old(self).numbers,
            final(self).done@.len() + final(self).pending@.len() == old(self).done@.len()
                + old(self).pending@.len(),
            match r {
                None => old(self).pending@.len() == 0 && final(self).done == old(self).done
                    && final(self).pending@.len() == 0,
                Some(e) => final(self).done@ == old(self).done@.push(e)
                    && final(self).pending@.len() + 1 == old(self).pending@.len(),
            },
    {
        let r = self.pending.pop();
        match r {
            Some(e) => {
                proof {
                    self.done = Ghost(self.done@.push(e));
                    assert(old(self).pending@.reverse() =~= seq![e] + self.pending@.reverse());
                    assert(self.done@ + self.pending@.reverse() =~= old(self).done@
                        + old(self).pending@.reverse());
                }
                Some(e)
            },
            None => None,
        }
    }

    /// Writes a piece of text, and tracks whether or not it ended a line.
    fn write(&mut self, s: &str)
        ensures
            final(self).out@ == old(self).out@ + s@,
            final(self).end_newline == if s@.len() > 0 {
                ends_with_newline(s@)
            } else {
                old(self).end_newline
            },
            final(self).pending == old(self).pending,
            final(self).done == old(self).done,
            final(self).table_state == old(self).table_state,
            final(self).table_alignments == old(self).table_alignments,
            final(self).table_cell_index == old(self).table_cell_index,
            final(self).numbers == old(self).numbers,
    {
        self.out.append(s);
        if !s.is_empty() {
            self.end_newline = ends_with_newline_str(s);
        }
    }

    /// Writes a line feed.
    fn write_newline(&mut self)
        ensures
            final(self).out@ == old(self).out@ + "\n"@,
            final(self).end_newline,
            final(self).pending == old(self).pending,
            final(self).done == old(self).done,
            final(self).table_state == old(self).table_state,
            final(self).table_alignments == old(self).table_alignments,
            final(self).table_cell_index == old(self).table_cell_index,
            final(self).numbers == old(self).numbers,
    {
        self.end_newline = true;
        self.out.append("\n");
    }

    /// Writes a line feed unless the output is at the start of a line.
    fn line_start(&mut self)
        ensures
            final(self).out@ == old(self).out@ + line_start(old(self).end_newline),
            final(self).pending == old(self).pending,
            final(self).done == old(self).done,
            final(self).table_state == old(self).table_state,
            final(self).table_alignments == old(self).table_alignments,
            final(self).table_cell_index == old(self).table_cell_index,
            final(self).numbers == old(self).numbers,
    {
        if !self.end_newline {
            self.write_newline();
        } else {
            assert(self.out@ + Seq::<char>::empty() =~= self.out@);
        }
    }

    /// The number of a footnote label, numbering it if it is new.
    fn number_of(&mut self, name: String) -> (n: usize)
        requires
            old(self).numbers@.len() < usize::MAX,
        ensures
            n as nat == footnote_number(old(self).numbers@.map_values(|s: String| s@), name@),
            final(self).numbers@.map_values(|s: String| s@) == labels_after(
                old(self).numbers@.map_values(|s: String| s@),
                name@,
            ),
            final(self).numbers@.len() <= old(self).numbers@.len() + 1,
            final(self).out == old(self).out,
            final(self).pending == old(self).pending,
            final(self).done == old(self).done,
            final(self).end_newline == old(self).end_newline,
            final(self).table_state == old(self).table_state,
            final(self).table_alignments == old(self).table_alignments,
            final(self).table_cell_index == old(self).table_cell_index,
    {
        let ghost labels = self.numbers@.map_values(|s: String| s@);
        let mut i: usize = self.numbers.len();
        assert(labels.subrange(0, i as int) =~= labels);
        while i > 0
            invariant
                i <= self.numbers@.len(),
                labels == self.numbers@.map_values(|s: String| s@),
                label_index(labels, name@) == label_index(labels.subrange(0, i as int), name@),
            decreases i,
        {
            let ghost prefix = labels.subrange(0, i as int);
            assert(prefix.last() == self.numbers@[i - 1]@);
            if self.numbers[i - 1] == name {
                return i;
            }
            assert(prefix.drop_last() =~= labels.subrange(0, i - 1));
            i = i - 1;
        }
        let n = self.numbers.len() + 1;
        self.numbers.push(name);
        proof {
            assert(self.numbers@.map_values(|s: String| s@) =~= labels.push(name@));
        }
        n
    }

    /// `e` is the last event consumed, and the fields agree with the events before it.
    closed spec fn consumed(&self, e: MdEvent) -> bool {
        &&& self.done@.len() > 0
        &&& self.done@.last() == e
        &&& render_events(self.done@.drop_last()) == (self.state(None), self.out@)
        &&& self.table_cell_index < self.done@.len()
        &&& self.numbers@.len() < self.done@.len()
        &&& self.done@.len() + self.pending@.len() <= usize::MAX
    }

    proof fn lemma_consumed(&self, e: MdEvent)
        requires
            self.consumed(e),
        ensures
            render_events(self.done@) == ({
                let (st2, more) = step(self.state(None), e);
                (st2, self.out@ + more)
            }),
    {
        lemma_render_push(self.done@.drop_last(), e);
        assert(self.done@.drop_last().push(e) =~= self.done@);
    }

    /// The consumed events end with the close of an image's alt text: they give this
    /// writer's state, with the image tag closed, and its output followed by the tag's closing text.
    closed spec fn closes_image(&self, title: Seq<char>) -> bool {
        &&& render_events(self.done@) == (
            with_newline(self.state(None), false),
            self.out@ + image_close(title),
        )
        &&& self.table_cell_index <= self.done@.len()
        &&& self.numbers@.len() <= self.done@.len()
        &&& self.done@.len() + self.pending@.len() <= usize::MAX
    }

    /// Writes the start of an HTML tag.
    fn start_tag(&mut self, tag: MdTag)
        requires
            old(self).consumed(MdEvent::Start(tag)),
        ensures
            final(self).settled(),
            final(self).events() == old(self).events(),
            final(self).pending@.len() <= old(self).pending@.len(),
    {
        match tag {
            MdTag::Paragraph | MdTag::Heading(_) | MdTag::BlockQuote | MdTag::List(_)
            | MdTag::Item => self.block_start(tag),
            MdTag::Table(_) | MdTag::TableHead | MdTag::TableRow | MdTag::TableCell => self.table_start(tag),
            MdTag::Emphasis | MdTag::Strong | MdTag::Strikethrough | MdTag::Link(_, _, _) => self.inline_start(tag),
            MdTag::CodeBlock(_) => self.code_block_start(tag),
            MdTag::FootnoteDefinition(_) => self.footnote_definition_start(tag),
            MdTag::Image(_, _, _) => self.image_start(tag),
        }
    }

    /// Writes the opening of a paragraph, heading, block quote, list or list item.
    fn block_start(&mut self, tag: MdTag)
        requires
            old(self).consumed(MdEvent::Start(tag)),
            tag is Paragraph || tag is Heading || tag is BlockQuote || tag is List || tag is Item,
        ensures
            final(self).wf(),
            final(self).events() == old(self).events(),
            final(self).pending@.len() <= old(self).pending@.len(),
    {
        proof {
            reveal_strlit("<p>");
            reveal_strlit("<h");
            reveal_strlit(">");
            reveal_strlit("<blockquote>\n");
            reveal_strlit("<ol>\n");
            reveal_strlit("<ol start=\"");
            reveal_strlit("\">\n");
            reveal_strlit("<ul>\n");
            reveal_strlit("<li>");
        }
        let ghost st0 = self.state(None);
        let ghost out0 = self.out@;
        let ghost t = tag;
        proof {
            self.lemma_consumed(MdEvent::Start(tag));
        }
        match tag {
            MdTag::Paragraph => {
                self.line_start();
                self.write("<p>");
            },
            MdTag::Heading(level) => {
                self.line_start();
                self.write("<h");
                push_decimal(&mut self.out, level as u64);
                self.write(">");
            },
            MdTag::BlockQuote => {
                self.line_start();
                self.write("<blockquote>\n");
            },
            MdTag::List(Some(start)) => {
                self.line_start();
                if start == 1 {
                    self.write("<ol>\n");
                } else {
                    self.write("<ol start=\"");
                    push_decimal(&mut self.out, start);
                    self.write("\">\n");
                }
            },
            MdTag::List(None) => {
                self.line_start();
                self.write("<ul>\n");
            },
            MdTag::Item => {
                self.line_start();
                self.write("<li>");
            },
            // the other tags are opened by the other writers
            _ => {},
        }
        proof {
            assert(self.out@ =~= out0 + start_step(st0, t).1);
            assert(self.out@ + Seq::<char>::empty() =~= self.out@);
        }
    }

    /// Writes the opening of a table, its head, a row or a cell.
    fn table_start(&mut self, tag: MdTag)
        requires
            old(self).consumed(MdEvent::Start(tag)),
            tag is Table || tag is TableHead || tag is TableRow || tag is TableCell,
        ensures
            final(self).wf(),
            final(self).events() == old(self).events(),
            final(self).pending@.len() <= old(self).pending@.len(),
    {
        proof {
            reveal_strlit("<table>");
            reveal_strlit("<thead><tr>");
            reveal_strlit("<tr>");
            reveal_strlit("<th");
            reveal_strlit("<td");
            reveal_strlit(" align=\"left\">");
            reveal_strlit(" align=\"center\">");
            reveal_strlit(" align=\"right\">");
            reveal_strlit(">");
        }
        let ghost st0 = self.state(None);
        let ghost out0 = self.out@;
        let ghost t = tag;
        proof {
            self.lemma_consumed(MdEvent::Start(tag));
        }
        match tag {
            MdTag::Table(alignments) => {
                self.table_alignments = alignments;
                self.write("<table>");
            },
            MdTag::TableHead => {
                self.table_state = TableState::Head;
                self.table_cell_index = 0;
                self.write("<thead><tr>");
            },
            MdTag::TableRow => {
                self.table_cell_index = 0;
                self.write("<tr>");
            },
            MdTag::TableCell => {
                match self.table_state {
                    TableState::Head => self.write("<th"),
                    TableState::Body => self.write("<td"),
                }
                if self.table_cell_index < self.table_alignments.len() {
                    match self.table_alignments[self.table_cell_index] {
                        ColumnAlign::Left => self.write(" align=\"left\">"),
                        ColumnAlign::Center => self.write(" align=\"center\">"),
                        ColumnAlign::Right => self.write(" align=\"right\">"),
                        ColumnAlign::Unspecified => self.write(">"),
                    }
                } else {
                    self.write(">");
                }
            },
            // the other tags are opened by the other writers
            _ => {},
        }
        proof {
            assert(self.out@ =~= out0 + start_step(st0, t).1);
            assert(self.out@ + Seq::<char>::empty() =~= self.out@);
        }
    }

    /// Writes the opening of emphasis, strong text, struck text or a link.
    fn inline_start(&mut self, tag: MdTag)
        requires
            old(self).consumed(MdEvent::Start(tag)),
            tag is Emphasis || tag is Strong || tag is Strikethrough || tag is Link,
        ensures
            final(self).wf(),
            final(self).events() == old(self).events(),
            final(self).pending@.len() <= old(self).pending@.len(),
    {
        proof {
            reveal_strlit("<em>");
            reveal_strlit("<strong>");
            reveal_strlit("<del>");
            reveal_strlit("<a href=\"");
            reveal_strlit("mailto:");
            reveal_strlit("\" title=\"");
            reveal_strlit("\">");
        }
        let ghost st0 = self.state(None);
        let ghost out0 = self.out@;
        let ghost t = tag;
        proof {
            self.lemma_consumed(MdEvent::Start(tag));
        }
        match tag {
            MdTag::Emphasis => {
                self.write("<em>");
            },
            MdTag::Strong => {
                self.write("<strong>");
            },
            MdTag::Strikethrough => {
                self.write("<del>");
            },
            MdTag::Link(kind, dest, title) => {
                self.write("<a href=\"");
                match kind {
                    LinkKind::Email => self.write("mailto:"),
                    _ => {},
                }
                push_href_escaped(&mut self.out, dest.as_str());
                if !title.as_str().is_empty() {
                    self.write("\" title=\"");
                    push_html_escaped(&mut self.out, title.as_str());
                }
                self.write("\">");
            },
            // the other tags are opened by the other writers
            _ => {},
        }
        proof {
            assert(self.out@ =~= out0 + start_step(st0, t).1);
            assert(self.out@ + Seq::<char>::empty() =~= self.out@);
        }
    }

    /// Writes the opening of a code block.
    fn code_block_start(&mut self, tag: MdTag)
        requires
            old(self).consumed(MdEvent::Start(tag)),
            tag is CodeBlock,
        ensures
            final(self).wf(),
            final(self).events() == old(self).events(),
            final(self).pending@.len() <= old(self).pending@.len(),
    {
        proof {
            reveal_strlit("<pre><code>");
            reveal_strlit("<pre><code class=\"language-");
            reveal_strlit("\">");
        }
        let ghost st0 = self.state(None);
        let ghost out0 = self.out@;
        let ghost t = tag;
        proof {
            self.lemma_consumed(MdEvent::Start(tag));
        }
        match tag {
            MdTag::CodeBlock(kind) => {
                self.line_start();
                match kind {
                    CodeKind::Fenced(info) => {
                        let lang = first_word_of(info.as_str());
                        if lang.as_str().is_empty() {
                            self.write("<pre><code>");
                        } else {
                            self.write("<pre><code class=\"language-");
                            push_html_escaped(&mut self.out, lang.as_str());
                            self.write("\">");
                        }
                    },
                    CodeKind::Indented => self.write("<pre><code>"),
                }
            },
            // the other tags are opened by the other writers
            _ => {},
        }
        proof {
            assert(self.out@ =~= out0 + start_step(st0, t).1);
            assert(self.out@ + Seq::<char>::empty() =~= self.out@);
        }
    }

    /// Writes the opening of a footnote definition.
    fn footnote_definition_start(&mut self, tag: MdTag)
        requires
            old(self).consumed(MdEvent::Start(tag)),
            tag is FootnoteDefinition,
        ensures
            final(self).wf(),
            final(self).events() == old(self).events(),
            final(self).pending@.len() <= old(self).pending@.len(),
    {
        proof {
            reveal_strlit("<div class=\"footnote-definition\" id=\"");
            reveal_strlit("\"><sup class=\"footnote-definition-label\">");
            reveal_strlit("</sup>");
        }
        let ghost st0 = self.state(None);
        let ghost out0 = self.out@;
        let ghost t = tag;
        proof {
            self.lemma_consumed(MdEvent::Start(tag));
        }
        match tag {
            MdTag::FootnoteDefinition(name) => {
                self.line_start();
                self.write("<div class=\"footnote-definition\" id=\"");
                push_html_escaped(&mut self.out, name.as_str());
                self.write("\"><sup class=\"footnote-definition-label\">");
                let number = self.number_of(name);
                push_decimal(&mut self.out, number as u64);
                self.write("</sup>");
            },
            // the other tags are opened by the other writers
            _ => {},
        }
        proof {
            assert(self.out@ =~= out0 + start_step(st0, t).1);
            assert(self.out@ + Seq::<char>::empty() =~= self.out@);
        }
    }

    /// Writes an image, its alt text included.
    fn image_start(&mut self, tag: MdTag)
        requires
            old(self).consumed(MdEvent::Start(tag)),
            tag is Image,
        ensures
            final(self).settled(),
            final(self).events() == old(self).events(),
            final(self).pending@.len() <= old(self).pending@.len(),
    {
        let ghost st0 = self.state(None);
        let ghost out0 = self.out@;
        let ghost t = tag;
        proof {
            self.lemma_consumed(MdEvent::Start(tag));
        }
        match tag {
            MdTag::Image(_, dest, title) => {
                self.write("<img src=\"");
                push_href_escaped(&mut self.out, dest.as_str());
                proof {
                    reveal_strlit("\" alt=\"");
                }
                self.write("\" alt=\"");
                proof {
                    assert(self.out@ =~= out0 + start_step(st0, t).1);
                }
                self.raw_text(Ghost(title@));
                let ghost out1 = self.out@;
                if !title.as_str().is_empty() {
                    self.write("\" title=\"");
                    push_html_escaped(&mut self.out, title.as_str());
                }
                proof {
                    reveal_strlit("\" />");
                }
                self.write("\" />");
                proof {
                    assert(self.out@ =~= out1 + image_close(title@));
                }
                return;
            },
            // the other tags are opened by the other writers
            _ => {},
        }
        proof {
            assert(self.out@ =~= out0 + start_step(st0, t).1);
            assert(self.out@ + Seq::<char>::empty() =~= self.out@);
        }
    }

    /// Writes the alt text of an image: every event up to the one that closes the
    /// image, flattened to escaped plain text. The closing event is consumed.
    fn raw_text(&mut self, title: Ghost<Seq<char>>)
        requires
            old(self).traces(Some((0nat, title@)), Seq::empty()),
        ensures
            final(self).events() == old(self).events(),
            final(self).pending@.len() <= old(self).pending@.len(),
            final(self).closes_image(title@) || (final(self).pending@.len() == 0
                && html_of(final(self).done@) == final(self).out@ + image_close(title@)),
    {
        let mut nest: usize = 0;
        loop
            invariant
                self.traces(Some((nest as nat, title@)), Seq::empty()),
                nest <= self.done@.len(),
                self.events() == old(self).events(),
                self.pending@.len() <= old(self).pending@.len(),
            decreases self.pending@.len(),
        {
            let ghost st0 = self.state(Some((nest as nat, title@)));
            let ghost out0 = self.out@;
            let ghost d0 = self.done@;
            let ghost nest0 = nest;
            match self.next_event() {
                None => {
                    assert(out0 + Seq::<char>::empty() =~= out0);
                    return;
                },
                Some(e) => {
                    let ghost ev = e;
                    proof {
                        lemma_render_push(d0, e);
                    }
                    match e {
                        MdEvent::Start(_) => {
                            nest = nest + 1;
                        },
                        MdEvent::End(_) => {
                            if nest == 0 {
                                assert(with_newline(self.state(None), false) == alt_step(
                                    st0,
                                    0,
                                    title@,
                                    ev,
                                ).0);
                                return;
                            }
                            nest = nest - 1;
                        },
                        MdEvent::Text(t) => {
                            push_html_escaped(&mut self.out, t.as_str());
                            self.end_newline = ends_with_newline_str(t.as_str());
                        },
                        MdEvent::Code(t) => {
                            push_html_escaped(&mut self.out, t.as_str());
                            self.end_newline = ends_with_newline_str(t.as_str());
                        },
                        MdEvent::Html(t) => {
                            push_html_escaped(&mut self.out, t.as_str());
                            self.end_newline = ends_with_newline_str(t.as_str());
                        },
                        MdEvent::SoftBreak | MdEvent::HardBreak | MdEvent::Rule => {
                            proof {
                                reveal_strlit(" ");
                            }
                            self.write(" ");
                        },
                        MdEvent::FootnoteReference(name) => {
                            // the number is written as it is, without newline tracking
                            let number = self.number_of(name);
                            self.out.append("[");
                            push_decimal(&mut self.out, number as u64);
                            self.out.append("]");
                        },
                        MdEvent::TaskListMarker(true) => {
                            proof {
                                reveal_strlit("[x]");
                            }
                            self.write("[x]");
                        },
                        MdEvent::TaskListMarker(false) => {
                            proof {
                                reveal_strlit("[ ]");
                            }
                            self.write("[ ]");
                        },
                    }
                    proof {
                        assert(self.out@ =~= out0 + alt_step(st0, nest0 as nat, title@, ev).1);
                        assert(self.out@ + Seq::<char>::empty() =~= self.out@);
                    }
                },
            }
        }
    }

    /// Writes the end of an HTML tag.
    fn end_tag(&mut self, tag: MdTag)
        requires
            old(self).consumed(MdEvent::End(tag)),
        ensures
            final(self).wf(),
            final(self).events() == old(self).events(),
            final(self).pending@.len() <= old(self).pending@.len(),
    {
        proof {
            reveal_strlit("</p>\n");
            reveal_strlit("</h");
            reveal_strlit(">\n");
            reveal_strlit("</tbody></table>\n");
            reveal_strlit("</tr></thead><tbody>\n");
            reveal_strlit("</tr>\n");
            reveal_strlit("</th>");
            reveal_strlit("</td>");
            reveal_strlit("</blockquote>\n");
            reveal_strlit("</code></pre>\n");
            reveal_strlit("</ol>\n");
            reveal_strlit("</ul>\n");
            reveal_strlit("</li>\n");
            reveal_strlit("</em>");
            reveal_strlit("</strong>");
            reveal_strlit("</del>");
            reveal_strlit("</a>");
            reveal_strlit("</div>\n");
        }
        let ghost st0 = self.state(None);
        let ghost out0 = self.out@;
        let ghost t = tag;
        proof {
            self.lemma_consumed(MdEvent::End(tag));
        }
        match tag {
            MdTag::Paragraph => self.write("</p>\n"),
            MdTag::Heading(level) => {
                self.write("</h");
                push_decimal(&mut self.out, level as u64);
                self.write(">\n");
            },
            MdTag::Table(_) => self.write("</tbody></table>\n"),
            MdTag::TableHead => {
                self.write("</tr></thead><tbody>\n");
                self.table_state = TableState::Body;
            },
            MdTag::TableRow => self.write("</tr>\n"),
            MdTag::TableCell => {
                match self.table_state {
                    TableState::Head => self.write("</th>"),
                    TableState::Body => self.write("</td>"),
                }
                self.table_cell_index = self.table_cell_index + 1;
            },
            MdTag::BlockQuote => self.write("</blockquote>\n"),
            MdTag::CodeBlock(_) => self.write("</code></pre>\n"),
            MdTag::List(Some(_)) => self.write("</ol>\n"),
            MdTag::List(None) => self.write("</ul>\n"),
            MdTag::Item => self.write("</li>\n"),
            MdTag::Emphasis => self.write("</em>"),
            MdTag::Strong => self.write("</strong>"),
            MdTag::Strikethrough => self.write("</del>"),
            MdTag::Link(_, _, _) => self.write("</a>"),
            // an image is closed where its alt text ends
            MdTag::Image(_, _, _) => {},
            MdTag::FootnoteDefinition(_) => self.write("</div>\n"),
        }
        proof {
            assert(self.out@ =~= out0 + end_step(st0, t).1);
            assert(self.out@ + Seq::<char>::empty() =~= self.out@);
        }
    }

    /// Renders every event that is left, and returns the HTML.
    pub fn run(self) -> (r: String)
        requires
            self.wf(),
        ensures
            r@ == html_of(self.events()),
    {
        let mut w = self;
        loop
            invariant
                w.settled(),
                w.events() == self.events(),
            ensures
                w.settled(),
                w.events() == self.events(),
                w.pending@.len() == 0,
            decreases w.pending@.len(),
        {
            if w.pending.len() == 0 {
                break;
            }
            let ghost st0 = w.state(None);
            let ghost out0 = w.out@;
            let ghost d0 = w.done@;
            let event = w.next_event();
            match event {
                None => break,
                Some(e) => {
                    let ghost ev = e;
                    proof {
                        assert(w.done@.drop_last() =~= d0);
                    }
                    match e {
                        MdEvent::Start(tag) => {
                            w.start_tag(tag);
                        },
                        MdEvent::End(tag) => {
                            w.end_tag(tag);
                        },
                        _ => {
                            w.inline_event(e);
                        },
                    }
                },
            }
        }
        proof {
            assert(w.pending@.reverse() =~= Seq::<MdEvent>::empty());
            assert(w.events() =~= w.done@);
            if w.wf() {
                assert(w.out@ + Seq::<char>::empty() =~= w.out@);
            }
        }
        w.out
    }

    /// Writes an event that neither opens nor closes a tag.
    fn inline_event(&mut self, e: MdEvent)
        requires
            old(self).consumed(e),
            !(e is Start),
            !(e is End),
        ensures
            final(self).wf(),
            final(self).events() == old(self).events(),
            final(self).pending@.len() <= old(self).pending@.len(),
    {
        proof {
            reveal_strlit("<pre><code>");
            reveal_strlit("</code></pre>");
            reveal_strlit("<code>");
            reveal_strlit("</code>");
            reveal_strlit("<br />\n");
            reveal_strlit("<hr />\n");
            reveal_strlit("<sup class=\"footnote-reference\"><a href=\"#");
            reveal_strlit("\">");
            reveal_strlit("</a></sup>");
            reveal_strlit("<input disabled=\"\" type=\"checkbox\" checked=\"\"/>\n");
            reveal_strlit("<input disabled=\"\" type=\"checkbox\"/>\n");
        }
        let ghost st0 = self.state(None);
        let ghost out0 = self.out@;
        let ghost ev = e;
        proof {
            self.lemma_consumed(e);
        }
        match e {
            MdEvent::Text(text) => {
                push_html_escaped(&mut self.out, text.as_str());
                self.end_newline = ends_with_newline_str(text.as_str());
            },
            MdEvent::Code(text) => {
                if contains_newline(text.as_str()) {
                    self.write("<pre><code>");
                    push_html_escaped(&mut self.out, text.as_str());
                    self.write("</code></pre>");
                } else {
                    self.write("<code>");
                    push_html_escaped(&mut self.out, text.as_str());
                    self.write("</code>");
                }
            },
            MdEvent::Html(html) => {
                self.write(html.as_str());
            },
            MdEvent::SoftBreak => {
                self.write_newline();
            },
            MdEvent::HardBreak => {
                self.write("<br />\n");
            },
            MdEvent::Rule => {
                self.line_start();
                self.write("<hr />\n");
            },
            MdEvent::FootnoteReference(name) => {
                self.write("<sup class=\"footnote-reference\"><a href=\"#");
                push_html_escaped(&mut self.out, name.as_str());
                self.write("\">");
                let number = self.number_of(name);
                push_decimal(&mut self.out, number as u64);
                self.write("</a></sup>");
            },
            MdEvent::TaskListMarker(true) => {
                self.write("<input disabled=\"\" type=\"checkbox\" checked=\"\"/>\n");
            },
            MdEvent::TaskListMarker(false) => {
                self.write("<input disabled=\"\" type=\"checkbox\"/>\n");
            },
            // tags are opened and closed by `start_tag` and `end_tag`
            _ => {},
        }
        proof {
            assert(self.out@ =~= out0 + step(st0, ev).1);
            assert(self.out@ + Seq::<char>::empty() =~= self.out@);
        }
    }

} // impl HtmlWriter

/// Renders an event stream to HTML.
pub fn render_html(events: Vec<MdEvent>) -> (r: String)
    ensures
        r@ == html_of(events@),
{
    HtmlWriter::new(events).run()
}

/// Renders Markdown text to HTML: the text is tokenized with every extension
/// enabled, then rendered.
pub fn render_markdown(text: &str) -> (r: String)
    ensures
        r@ == html_of(markdown_events(text@)),
        text@.len() == 0 ==> r@.len() == 0,
{
    let events = tokenize(text);
    proof {
        if text@.len() == 0 {
            assert(events@ =~= Seq::<MdEvent>::empty());
        }
    }
    render_html(events)
}

} // verus!
