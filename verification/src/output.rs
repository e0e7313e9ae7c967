//! What the program prints: lines of styled text for the terminal's two streams.

use vstd::prelude::*;

verus! {

/// How a piece of text is painted.
#[derive(Debug, Clone, Copy, PartialEq, Eq, Structural)]
pub enum Style {
    Plain,
    Bold,
    Dimmed,
    Green,
    Red,
    Yellow,
    Blue,
    BlueBold,
    Cyan,
    CyanBold,
}

/// Where a line is printed.
#[derive(Debug, Clone, Copy, PartialEq, Eq, Structural)]
pub enum Stream {
    Output,
    Error,
}

/// A piece of text in one style.
#[derive(Debug)]
pub struct Span {
    pub style: Style,
    pub text: String,
}

/// A line to print. A line that is not closed leaves the cursor behind its last character.
#[derive(Debug)]
pub struct Line {
    pub stream: Stream,
    pub spans: Vec<Span>,
    pub closed: bool,
}

/// What a [`Line`] stands for.
pub struct LineModel {
    pub stream: Stream,
    pub spans: Seq<(Style, Seq<char>)>,
    pub closed: bool,
}

impl View for Line {
    type V = LineModel;

    open spec fn view(&self) -> LineModel {
        LineModel {
            stream: self.stream,
            spans: self.spans@.map_values(|s: Span| (s.style, s.text@)),
            closed: self.closed,
        }
    }
}

/// The lines of a list.
pub open spec fn line_views(lines: Seq<Line>) -> Seq<LineModel> {
    lines.map_values(|l: Line| l@)
}

/// A line of these pieces on the standard output.
pub open spec fn painted(spans: Seq<(Style, Seq<char>)>) -> LineModel {
    LineModel { stream: Stream::Output, spans, closed: true }
}

/// A plain line on the standard output.
pub open spec fn said(text: Seq<char>) -> LineModel {
    painted(seq![(Style::Plain, text)])
}

/// A plain line on the standard error.
pub open spec fn warned(text: Seq<char>) -> LineModel {
    LineModel { stream: Stream::Error, spans: seq![(Style::Plain, text)], closed: true }
}

/// A plain text on the standard output that the next line continues.
pub open spec fn begun(text: Seq<char>) -> LineModel {
    LineModel { stream: Stream::Output, spans: seq![(Style::Plain, text)], closed: false }
}

/// The characters of the pieces, one after the other.
pub open spec fn flat(spans: Seq<(Style, Seq<char>)>) -> Seq<char>
    decreases spans.len(),
{
    if spans.len() == 0 {
        Seq::empty()
    } else {
        flat(spans.drop_last()) + spans.last().1
    }
}

impl Line {
    /// An empty line for one of the streams.
    pub fn new(stream: Stream) -> (r: Line)
        ensures
            r@ == (LineModel { stream, spans: Seq::empty(), closed: true }),
    {
        let r = Line { stream, spans: Vec::new(), closed: true };
        proof {
            assert(r@.spans =~= Seq::empty());
        }
        r
    }

    /// Adds a piece of text to the end of the line.
    pub fn add(&mut self, style: Style, text: &str)
        ensures
            final(self)@ == (LineModel { spans: old(self)@.spans.push((style, text@)), ..old(self)@ }),
    {
        self.spans.push(Span { style, text: text.to_owned() });
        proof {
            assert(self@.spans =~= old(self)@.spans.push((style, text@)));
        }
    }

    /// The characters of the line, without its styles.
    pub fn text(&self) -> (r: String)
        ensures
            r@ == flat(self@.spans),
    {
        let mut s = String::new();
        let mut i: usize = 0;
        while i < self.spans.len()
            invariant
                i <= self.spans@.len(),
                s@ == flat(self@.spans.take(i as int)),
            decreases self.spans@.len() - i,
        {
            s.append(self.spans[i].text.as_str());
            proof {
                assert(self@.spans.take(i + 1).drop_last() =~= self@.spans.take(i as int));
            }
            i = i + 1;
        }
        proof {
            assert(self@.spans.take(i as int) =~= self@.spans);
        }
        s
    }
}

/// A plain line on the standard output.
pub fn say(text: &str) -> (r: Line)
    ensures
        r@ == said(text@),
{
    let mut line = Line::new(Stream::Output);
    line.add(Style::Plain, text);
    line
}

/// A line of one piece on the standard output.
pub fn paint1(style: Style, text: &str) -> (r: Line)
    ensures
        r@ == painted(seq![(style, text@)]),
{
    let mut line = Line::new(Stream::Output);
    line.add(style, text);
    proof {
        assert(line@.spans =~= seq![(style, text@)]);
    }
    line
}

/// A line of two pieces on the standard output.
pub fn paint2(first_style: Style, first: &str, second_style: Style, second: &str) -> (r: Line)
    ensures
        r@ == painted(seq![(first_style, first@), (second_style, second@)]),
{
    let mut line = Line::new(Stream::Output);
    line.add(first_style, first);
    line.add(second_style, second);
    proof {
        assert(line@.spans =~= seq![(first_style, first@), (second_style, second@)]);
    }
    line
}

/// A plain line on the standard error.
pub fn warn(text: &str) -> (r: Line)
    ensures
        r@ == warned(text@),
{
    let mut line = Line::new(Stream::Error);
    line.add(Style::Plain, text);
    line
}

/// A plain text on the standard output that the next line continues.
pub fn begin(text: &str) -> (r: Line)
    ensures
        r@ == begun(text@),
{
    let mut line = Line::new(Stream::Output);
    line.add(Style::Plain, text);
    line.closed = false;
    line
}

/// Adds a line to the end of a list.
pub fn put(lines: &mut Vec<Line>, line: Line)
    ensures
        line_views(final(lines)@) == line_views(old(lines)@).push(line@),
{
    lines.push(line);
    proof {
        assert(line_views(lines@) =~= line_views(old(lines)@).push(line@));
    }
}

/// Adds lines to the end of a list.
pub fn put_all(lines: &mut Vec<Line>, more: Vec<Line>)
    ensures
        line_views(final(lines)@) == line_views(old(lines)@) + line_views(more@),
{
    let mut more = more;
    let ghost added = more@;
    lines.append(&mut more);
    proof {
        assert(line_views(lines@) =~= line_views(old(lines)@) + line_views(added));
    }
}

/// The characters of a line are those of its pieces, in order: those of two runs of pieces are
/// the characters of the first and then of the second, and those of one piece its own.
pub proof fn law_flat(a: Seq<(Style, Seq<char>)>, b: Seq<(Style, Seq<char>)>, style: Style, text: Seq<char>)
    ensures
        flat(a + b) == flat(a) + flat(b),
        flat(seq![(style, text)]) == text,
    decreases b.len(),
{
    reveal_with_fuel(flat, 2);
    let one = seq![(style, text)];
    assert(one.drop_last() =~= Seq::<(Style, Seq<char>)>::empty());
    assert(flat(one) =~= text);
    if b.len() > 0 {
        law_flat(a, b.drop_last(), style, text);
        assert((a + b).drop_last() =~= a + b.drop_last());
        assert((a + b).last() == b.last());
        assert(flat(a + b) =~= flat(a) + flat(b));
    } else {
        assert(a + b =~= a);
        assert(flat(a) + flat(b) =~= flat(a));
    }
}

/// A line that is said goes to the standard output and one that warns to the standard error;
/// both are closed and hold the text and nothing else. What is begun is not closed.
pub proof fn law_plain_lines(text: Seq<char>)
    ensures
        said(text).stream == Stream::Output && said(text).closed && flat(said(text).spans) == text,
        warned(text).stream == Stream::Error && warned(text).closed && flat(warned(text).spans) == text,
        begun(text).stream == Stream::Output && !begun(text).closed && flat(begun(text).spans) == text,
{
    law_flat(Seq::empty(), Seq::empty(), Style::Plain, text);
}

/// A line stands for its pieces, one for one and in order, and a list of lines for its lines.
pub proof fn law_line_views(lines: Seq<Line>, i: int, k: int)
    requires
        0 <= i < lines.len(),
        0 <= k < lines[i].spans@.len(),
    ensures
        line_views(lines).len() == lines.len(),
        line_views(lines)[i].stream == lines[i].stream,
        line_views(lines)[i].closed == lines[i].closed,
        line_views(lines)[i].spans.len() == lines[i].spans@.len(),
        line_views(lines)[i].spans[k] == (lines[i].spans@[k].style, lines[i].spans@[k].text@),
{
}

} // verus!
