//! Blog documents: a header of title and date lines (optionally after a format
//! version line), then a Markdown body that is rendered to HTML.
use vstd::prelude::*;
use crate::date::{date_of, Date};
use crate::html::{html_of, render_markdown};
use crate::text::{chars_of, parse_unsigned, parse_unsigned_chars, split_chars, split_on, split_on_len, views};
use crate::tokenize::markdown_events;

verus! {

/// A parsed blog document.
pub struct Blog {
    /// The header format version; 0 is a header of a title and a date.
    pub version: u32,
    pub title: String,
    pub date: Date,
    /// The body, rendered to HTML.
    pub body: String,
}

/// Why a document could not be read.
#[derive(Clone, Debug, PartialEq, Eq)]
pub enum BlogError {
    /// The file at this path could not be read as text.
    PathNotValid(String),
    MissingVersion,
    InvalidVersion,
    MissingTitle,
    MissingDate,
    InvalidDate,
}

/// A line without its carriage return, if it had one before its line feed.
pub open spec fn strip_cr(l: Seq<char>) -> Seq<char> {
    if l.len() > 0 && l.last() == '\r' {
        l.drop_last()
    } else {
        l
    }
}

/// The lines of a text: split at line feeds, a carriage return before a line feed
/// dropped, and no empty line after a final line feed.
pub open spec fn lines_of(s: Seq<char>) -> Seq<Seq<char>> {
    let parts = split_on(s, '\n');
    let ended = parts.drop_last().map_values(|l: Seq<char>| strip_cr(l));
    if parts.last().len() > 0 {
        ended.push(parts.last())
    } else {
        ended
    }
}

/// Lines joined back into a text, each ended by a line feed.
pub open spec fn joined(ls: Seq<Seq<char>>) -> Seq<char>
    decreases ls.len(),
{
    if ls.len() == 0 {
        Seq::empty()
    } else {
        joined(ls.drop_last()) + ls.last().push('\n')
    }
}

/// The title and the date of a header made of a title line and a date line.
pub open spec fn header_of(lines: Seq<Seq<char>>) -> Result<(Seq<char>, Date), BlogError> {
    if lines.len() == 0 {
        Err(BlogError::MissingTitle)
    } else if lines.len() == 1 {
        Err(BlogError::MissingDate)
    } else {
        match date_of(lines[1]) {
            Some(d) => Ok((lines[0], d)),
            None => Err(BlogError::InvalidDate),
        }
    }
}

/// The format version that a document's first line gives.
pub open spec fn version_of(lines: Seq<Seq<char>>) -> Result<nat, BlogError> {
    if lines.len() == 0 {
        Err(BlogError::MissingVersion)
    } else {
        match parse_unsigned(lines[0], u32::MAX as nat) {
            Some(v) => Ok(v),
            None => Err(BlogError::InvalidVersion),
        }
    }
}

/// Whether `b` is what the lines of a document from its title line on give: its
/// title, date, format version and HTML body, or the error of its header.
pub open spec fn document_of(lines: Seq<Seq<char>>, version: u32, b: Result<Blog, BlogError>) -> bool {
    match b {
        Ok(b) => {
            &&& header_of(lines) == Ok::<(Seq<char>, Date), BlogError>((b.title@, b.date))
            &&& b.version == version
            &&& b.body@ == html_of(markdown_events(joined(lines.skip(2))))
        },
        Err(e) => header_of(lines) == Err::<(Seq<char>, Date), BlogError>(e),
    }
}

fn string_of(cs: &Vec<char>, n: usize) -> (r: String)
    requires
        n <= cs.len(),
    ensures
        r@ == cs@.take(n as int),
{
    let mut r = String::new();
    let mut i: usize = 0;
    while i < n
        invariant
            i <= n <= cs.len(),
            r@ == cs@.take(i as int),
        decreases n - i,
    {
        r.push(cs[i]);
        assert(cs@.take(i + 1) =~= cs@.take(i as int).push(cs@[i as int]));
        i = i + 1;
    }
    r
}

/// Splits a text into its lines.
pub fn lines(text: &str) -> (r: Vec<String>)
    ensures
        r@.map_values(|l: String| l@) == lines_of(text@),
{
    let cs = chars_of(text);
    let parts = split_chars(&cs, '\n');
    proof {
        split_on_len(cs@, '\n');
    }
    let ghost ps = split_on(text@, '\n');
    let mut r: Vec<String> = Vec::new();
    let mut i: usize = 0;
    while i + 1 < parts.len()
        invariant
            views(parts@) == ps,
            ps.len() >= 1,
            i + 1 <= parts.len(),
            r@.map_values(|l: String| l@) == ps.take(i as int).map_values(|l: Seq<char>| strip_cr(l)),
        decreases parts.len() - i,
    {
        let part = &parts[i];
        assert(views(parts@)[i as int] == part@);
        let n = part.len();
        let line = if n > 0 && part[n - 1] == '\r' {
            string_of(part, n - 1)
        } else {
            string_of(part, n)
        };
        assert(line@ =~= strip_cr(ps[i as int]));
        let ghost before = r@.map_values(|l: String| l@);
        r.push(line);
        assert(r@.map_values(|l: String| l@) =~= before.push(strip_cr(ps[i as int])));
        assert(ps.take(i + 1).map_values(|l: Seq<char>| strip_cr(l)) =~= ps.take(i as int).map_values(
            |l: Seq<char>| strip_cr(l),
        ).push(strip_cr(ps[i as int])));
        i = i + 1;
    }
    let last = &parts[i];
    assert(views(parts@)[i as int] == last@);
    assert(ps.take(i as int) =~= ps.drop_last());
    if last.len() > 0 {
        let line = string_of(last, last.len());
        assert(line@ =~= last@);
        r.push(line);
        assert(r@.map_values(|l: String| l@) =~= lines_of(text@));
    }
    r
}

/// The text of lines `first..` of `ls`, each line ended by a line feed.
fn join_from(ls: &Vec<String>, first: usize) -> (r: String)
    requires
        first <= ls.len(),
    ensures
        r@ == joined(ls@.map_values(|l: String| l@).skip(first as int)),
{
    let ghost v = ls@.map_values(|l: String| l@);
    let mut r = String::new();
    let mut i: usize = first;
    assert(v.subrange(first as int, first as int) =~= Seq::<Seq<char>>::empty());
    while i < ls.len()
        invariant
            first <= i <= ls.len(),
            v == ls@.map_values(|l: String| l@),
            r@ == joined(v.subrange(first as int, i as int)),
        decreases ls.len() - i,
    {
        assert(v.subrange(first as int, i + 1).drop_last() =~= v.subrange(first as int, i as int));
        assert(v[i as int] == ls@[i as int]@);
        r.append(ls[i].as_str());
        r.push('\n');
        assert(r@ =~= joined(v.subrange(first as int, i + 1)));
        i = i + 1;
    }
    assert(v.subrange(first as int, i as int) =~= v.skip(first as int));
    r
}

impl Blog {
    /// Reads a document whose header is a title line and a date line; everything
    /// after the header is the Markdown body. A header without a body gives an
    /// empty body.
    pub fn new(text: &str) -> (r: Result<Blog, BlogError>)
        ensures
            document_of(lines_of(text@), 0, r),
            lines_of(text@).len() == 2 && r is Ok ==> r->Ok_0.body@.len() == 0,
    {
        let ls = lines(text);
        assert(ls@.map_values(|l: String| l@).skip(0) =~= ls@.map_values(|l: String| l@));
        Blog::from_lines(&ls, 0, 0)
    }

    /// Reads a document whose first line is its format version, followed by a title
    /// line, a date line and the Markdown body. A header without a body gives an
    /// empty body.
    pub fn new_versioned(text: &str) -> (r: Result<Blog, BlogError>)
        ensures
            match version_of(lines_of(text@)) {
                Err(e) => r == Err::<Blog, BlogError>(e),
                Ok(v) => document_of(lines_of(text@).skip(1), v as u32, r),
            },
            lines_of(text@).len() == 3 && r is Ok ==> r->Ok_0.body@.len() == 0,
    {
        let ls = lines(text);
        if ls.len() == 0 {
            return Err(BlogError::MissingVersion);
        }
        let first = chars_of(ls[0].as_str());
        proof {
            assert(ls@.map_values(|l: String| l@)[0] == ls@[0]@);
        }
        match parse_unsigned_chars(&first, 0xFFFF_FFFF) {
            None => Err(BlogError::InvalidVersion),
            Some(v) => Blog::from_lines(&ls, 1, v as u32),
        }
    }

    /// Reads the header and the body that start at line `first`.
    fn from_lines(ls: &Vec<String>, first: usize, version: u32) -> (r: Result<Blog, BlogError>)
        requires
            first <= 1,
            first <= ls.len(),
        ensures
            document_of(ls@.map_values(|l: String| l@).skip(first as int), version, r),
            ls.len() == first + 2 && r is Ok ==> r->Ok_0.body@.len() == 0,
    {
        let ghost v = ls@.map_values(|l: String| l@);
        let ghost h = v.skip(first as int);
        if ls.len() <= first {
            return Err(BlogError::MissingTitle);
        }
        assert(h[0] == ls@[first as int]@);
        let title = ls[first].clone();
        if ls.len() <= first + 1 {
            return Err(BlogError::MissingDate);
        }
        assert(h[1] == ls@[first + 1]@);
        let date_chars = chars_of(ls[first + 1].as_str());
        let date = match Date::from_chars(&date_chars) {
            Some(d) => d,
            None => {
                return Err(BlogError::InvalidDate);
            },
        };
        let source = join_from(ls, first + 2);
        assert(v.skip(first + 2) =~= h.skip(2));
        let body = render_markdown(source.as_str());
        proof {
            if ls.len() == first + 2 {
                assert(h.skip(2) =~= Seq::<Seq<char>>::empty());
            }
        }
        Ok(Blog { version, title, date, body })
    }
}

} // verus!
