//! Lines of text for a terminal, with the style of each stretch of them.

use vstd::prelude::*;

use crate::text::views;

verus! {

broadcast use crate::text::lemma_views_push;

#[derive(Debug, Clone, Copy, PartialEq, Eq, Structural)]
pub enum Style {
    Plain,
    Bold,
    Dimmed,
    Cyan,
    Green,
    Yellow,
    Red,
    BoldCyan,
    BoldGreen,
    BoldYellow,
    BoldRed,
}

/// A stretch of text in one style.
#[derive(Debug)]
pub struct Span {
    pub text: String,
    pub style: Style,
}

#[verifier::ext_equal]
pub struct SpanView {
    pub text: Seq<char>,
    pub style: Style,
}

impl View for Span {
    type V = SpanView;

    open spec fn view(&self) -> SpanView {
        SpanView { text: self.text@, style: self.style }
    }
}

/// A line, without the line break that ends it.
#[derive(Debug)]
pub struct Line {
    pub spans: Vec<Span>,
}

pub type LineView = Seq<SpanView>;

impl View for Line {
    type V = LineView;

    open spec fn view(&self) -> LineView {
        views(self.spans@)
    }
}

pub open spec fn styled(text: Seq<char>, style: Style) -> SpanView {
    SpanView { text, style }
}

pub open spec fn plain(text: Seq<char>) -> SpanView {
    SpanView { text, style: Style::Plain }
}

/// The characters of a line, whatever their style.
pub open spec fn line_text(line: LineView) -> Seq<char>
    decreases line.len(),
{
    if line.len() == 0 {
        Seq::empty()
    } else {
        line_text(line.drop_last()) + line.last().text
    }
}

impl Span {
    pub fn new(text: &str, style: Style) -> (r: Span)
        ensures
            r@ == styled(text@, style),
    {
        Span { text: text.to_owned(), style }
    }

    pub fn plain(text: &str) -> (r: Span)
        ensures
            r@ == plain(text@),
    {
        Span { text: text.to_owned(), style: Style::Plain }
    }
}

impl Line {
    pub fn new(spans: Vec<Span>) -> (r: Line)
        ensures
            r@ == views(spans@),
    {
        Line { spans }
    }

    pub fn blank() -> (r: Line)
        ensures
            r@ == LineView::empty(),
    {
        let r = Line { spans: Vec::new() };
        assert(r@ =~= LineView::empty());
        r
    }

    /// The line without its styles.
    pub fn text(&self) -> (r: String)
        ensures
            r@ == line_text(self@),
    {
        let ghost all = self@;
        let mut out = String::new();
        assert(out@ =~= line_text(all.take(0)));
        for i in 0..self.spans.len()
            invariant
                all == views(self.spans@),
                out@ == line_text(all.take(i as int)),
        {
            assert(all.take(i + 1).drop_last() =~= all.take(i as int));
            out.append(self.spans[i].text.as_str());
        }
        assert(all.take(all.len() as int) =~= all);
        out
    }
}

/// A line reads as its stretches of text one behind the other, and a stretch is
/// shown in the style that it was given.
pub proof fn a_line_reads_as_its_stretches(line: LineView, text: Seq<char>, style: Style)
    ensures
        styled(text, style).text == text,
        styled(text, style).style == style,
        plain(text).text == text,
        plain(text).style == Style::Plain,
        line_text(Seq::empty()) == Seq::<char>::empty(),
        line_text(line.push(styled(text, style))) == line_text(line) + text,
{
    assert(line.push(styled(text, style)).drop_last() =~= line);
}

} // verus!
