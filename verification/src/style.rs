//! Colours, styles and styled lines: what the renderers produce and the
//! terminal front end draws.
use vstd::prelude::*;

use crate::util::{chars_of, string_of};

verus! {

/// A 24-bit colour.
#[derive(Debug, Clone, Copy, PartialEq, Eq, Structural)]
pub enum Color {
    Rgb(u8, u8, u8),
}

/// The style of a run of text: colours and the three text modifiers in use.
#[derive(Debug, Clone, Copy, PartialEq, Eq, Structural)]
pub struct Style {
    pub fg: Option<Color>,
    pub bg: Option<Color>,
    pub bold: bool,
    pub italic: bool,
    pub crossed_out: bool,
}

/// The style with no colour and no modifier.
pub open spec fn plain() -> Style {
    Style { fg: None, bg: None, bold: false, italic: false, crossed_out: false }
}

/// `s` with the foreground colour `c`.
pub open spec fn with_fg(s: Style, c: Color) -> Style {
    Style { fg: Some(c), ..s }
}

impl Style {
    /// The style with no colour and no modifier.
    pub fn new() -> (s: Style)
        ensures
            s == plain(),
    {
        Style { fg: None, bg: None, bold: false, italic: false, crossed_out: false }
    }

    /// This style with the foreground colour `c`.
    pub fn fg(self, c: Color) -> (s: Style)
        ensures
            s == with_fg(self, c),
    {
        Style { fg: Some(c), ..self }
    }

    /// This style with the background colour `c`.
    pub fn bg(self, c: Color) -> (s: Style)
        ensures
            s == (Style { bg: Some(c), ..self }),
    {
        Style { bg: Some(c), ..self }
    }

    /// This style, bold.
    pub fn bold(self) -> (s: Style)
        ensures
            s == (Style { bold: true, ..self }),
    {
        Style { bold: true, ..self }
    }

    /// This style, italic.
    pub fn italic(self) -> (s: Style)
        ensures
            s == (Style { italic: true, ..self }),
    {
        Style { italic: true, ..self }
    }

    /// This style, crossed out.
    pub fn crossed_out(self) -> (s: Style)
        ensures
            s == (Style { crossed_out: true, ..self }),
    {
        Style { crossed_out: true, ..self }
    }
}

/// A run of text in one style.
#[derive(Debug)]
pub struct Span {
    pub content: String,
    pub style: Style,
}

/// A span as its text and its style.
pub type SpanV = (Seq<char>, Style);

impl View for Span {
    type V = SpanV;

    open spec fn view(&self) -> SpanV {
        (self.content@, self.style)
    }
}

impl Span {
    /// A span of `content` in the style `style`.
    pub fn styled(content: String, style: Style) -> (s: Span)
        ensures
            s@ == (content@, style),
    {
        Span { content, style }
    }

    /// A span of `content` in the plain style.
    pub fn raw(content: String) -> (s: Span)
        ensures
            s@ == (content@, plain()),
    {
        Span { content, style: Style::new() }
    }

    /// A copy of this span.
    pub fn duplicate(&self) -> (s: Span)
        ensures
            s@ == self@,
    {
        Span { content: self.content.clone(), style: self.style }
    }
}

/// One display line: spans drawn left to right.
#[derive(Debug)]
pub struct Line {
    pub spans: Vec<Span>,
}

/// A line as the views of its spans.
pub type LineV = Seq<SpanV>;

/// The views of spans.
pub open spec fn spans_view(s: Seq<Span>) -> LineV {
    s.map_values(|x: Span| x@)
}

impl View for Line {
    type V = LineV;

    open spec fn view(&self) -> LineV {
        spans_view(self.spans@)
    }
}

/// The views of lines.
pub open spec fn lines_view(ls: Seq<Line>) -> Seq<LineV> {
    ls.map_values(|l: Line| l@)
}

/// The text of a line: its spans' texts one after the other.
pub open spec fn line_text(l: LineV) -> Seq<char>
    decreases l.len(),
{
    if l.len() == 0 {
        Seq::empty()
    } else {
        line_text(l.drop_last()) + l.last().0
    }
}

impl Line {
    /// A line of the given spans.
    pub fn from_spans(spans: Vec<Span>) -> (l: Line)
        ensures
            l@ == spans_view(spans@),
    {
        Line { spans }
    }

    /// A line of one span.
    pub fn single(span: Span) -> (l: Line)
        ensures
            l@ == seq![span@],
    {
        let mut spans: Vec<Span> = Vec::new();
        spans.push(span);
        proof {
            assert(spans_view(spans@) =~= seq![span@]);
        }
        Line { spans }
    }

    /// A line of two spans.
    pub fn pair(a: Span, b: Span) -> (l: Line)
        ensures
            l@ == seq![a@, b@],
    {
        let ghost (av, bv) = (a@, b@);
        let mut spans: Vec<Span> = Vec::new();
        spans.push(a);
        spans.push(b);
        proof {
            assert(spans_view(spans@) =~= seq![av, bv]);
        }
        Line { spans }
    }

    /// A line of three spans.
    pub fn triple(a: Span, b: Span, c: Span) -> (l: Line)
        ensures
            l@ == seq![a@, b@, c@],
    {
        let ghost (av, bv, cv) = (a@, b@, c@);
        let mut spans: Vec<Span> = Vec::new();
        spans.push(a);
        spans.push(b);
        spans.push(c);
        proof {
            assert(spans_view(spans@) =~= seq![av, bv, cv]);
        }
        Line { spans }
    }

    /// A line of four spans.
    pub fn quad(a: Span, b: Span, c: Span, d: Span) -> (l: Line)
        ensures
            l@ == seq![a@, b@, c@, d@],
    {
        let ghost (av, bv, cv, dv) = (a@, b@, c@, d@);
        let mut spans: Vec<Span> = Vec::new();
        spans.push(a);
        spans.push(b);
        spans.push(c);
        spans.push(d);
        proof {
            assert(spans_view(spans@) =~= seq![av, bv, cv, dv]);
        }
        Line { spans }
    }

    /// A line with no span (an empty line).
    pub fn blank() -> (l: Line)
        ensures
            l@ == Seq::<SpanV>::empty(),
    {
        let spans: Vec<Span> = Vec::new();
        proof {
            assert(spans_view(spans@) =~= Seq::<SpanV>::empty());
        }
        Line { spans }
    }

    /// A copy of this line.
    pub fn duplicate(&self) -> (l: Line)
        ensures
            l@ == self@,
    {
        let mut spans: Vec<Span> = Vec::new();
        let mut i: usize = 0;
        while i < self.spans.len()
            invariant
                0 <= i <= self.spans@.len(),
                spans_view(spans@) == spans_view(self.spans@).take(i as int),
            decreases self.spans@.len() - i,
        {
            let s = self.spans[i].duplicate();
            let ghost before = spans@;
            spans.push(s);
            proof {
                assert(spans@ == before.push(s));
                assert(spans_view(spans@) =~= spans_view(before).push(s@));
                assert(spans_view(self.spans@).take(i + 1) =~= spans_view(self.spans@).take(i as int).push(
                    self.spans@[i as int]@,
                ));
            }
            i = i + 1;
        }
        proof {
            assert(spans_view(self.spans@).take(self.spans@.len() as int) =~= spans_view(self.spans@));
        }
        Line { spans }
    }
}

/// The colours of the interface.
#[derive(Debug, Clone, Copy, PartialEq, Eq, Structural)]
pub struct Theme {
    /// Highlighted borders and titles.
    pub accent: Color,
    /// Secondary text.
    pub dim: Color,
    /// Separators, darker still.
    pub faint: Color,
    /// The label of the user's messages.
    pub user: Color,
    /// The label of the assistant's messages.
    pub assistant: Color,
    /// Reasoning text.
    pub reasoning: Color,
    /// Errors.
    pub error: Color,
    /// Code block frames and language labels.
    pub code: Color,
    /// Block quotes.
    pub quote: Color,
}

/// The dark colour scheme in use.
pub open spec fn nord_theme() -> Theme {
    Theme {
        accent: Color::Rgb(136, 192, 208),
        dim: Color::Rgb(129, 161, 193),
        faint: Color::Rgb(76, 86, 106),
        user: Color::Rgb(143, 188, 187),
        assistant: Color::Rgb(180, 142, 192),
        reasoning: Color::Rgb(108, 122, 147),
        error: Color::Rgb(191, 97, 106),
        code: Color::Rgb(94, 129, 172),
        quote: Color::Rgb(108, 122, 147),
    }
}

impl Default for Theme {
    fn default() -> (t: Theme)
        ensures
            t == nord_theme(),
    {
        Theme {
            accent: Color::Rgb(136, 192, 208),
            dim: Color::Rgb(129, 161, 193),
            faint: Color::Rgb(76, 86, 106),
            user: Color::Rgb(143, 188, 187),
            assistant: Color::Rgb(180, 142, 192),
            reasoning: Color::Rgb(108, 122, 147),
            error: Color::Rgb(191, 97, 106),
            code: Color::Rgb(94, 129, 172),
            quote: Color::Rgb(108, 122, 147),
        }
    }
}

/// `n` copies of `c`.
pub open spec fn repeat(c: char, n: nat) -> Seq<char> {
    Seq::new(n, |_i: int| c)
}

/// A string of `n` copies of `c`.
pub fn repeat_char(c: char, n: usize) -> (r: Vec<char>)
    ensures
        r@ == repeat(c, n as nat),
{
    let mut v: Vec<char> = Vec::new();
    let mut i: usize = 0;
    while i < n
        invariant
            0 <= i <= n,
            v@ == repeat(c, i as nat),
        decreases n - i,
    {
        v.push(c);
        proof {
            assert(v@ =~= repeat(c, (i + 1) as nat));
        }
        i = i + 1;
    }
    v
}

} // verus!
