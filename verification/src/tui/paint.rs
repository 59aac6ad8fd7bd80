//! What the interface shows, as values: styled texts, lines of them, and panels of lines.

use crate::order::{lemma_views_push, views};
use crate::text::{chars_of, head, opt_text, slice_of, text_of};
use vstd::prelude::*;

verus! {

/// A colour of the terminal.
#[derive(Debug, Clone, Copy, PartialEq, Eq, Structural)]
pub enum Color {
    Cyan,
    Green,
    Red,
    Gray,
    DarkGray,
    Yellow,
    Magenta,
    Blue,
    LightRed,
}

/// How a text looks.
#[derive(Debug, Clone, Copy, PartialEq, Eq, Structural)]
pub struct Style {
    pub color: Option<Color>,
    pub bold: bool,
    pub dim: bool,
    pub reversed: bool,
}

/// Nothing special.
pub open spec fn plain() -> Style {
    Style { color: None, bold: false, dim: false, reversed: false }
}

/// In a colour.
pub open spec fn colored(color: Color) -> Style {
    Style { color: Some(color), ..plain() }
}

/// In bold type.
pub open spec fn bold() -> Style {
    Style { bold: true, ..plain() }
}

impl Style {
    /// Nothing special.
    pub fn plain() -> (r: Style)
        ensures
            r == plain(),
    {
        Style { color: None, bold: false, dim: false, reversed: false }
    }

    /// In a colour.
    pub fn colored(color: Color) -> (r: Style)
        ensures
            r == colored(color),
    {
        Style { color: Some(color), bold: false, dim: false, reversed: false }
    }

    /// The same in bold type.
    pub fn bold(self) -> (r: Style)
        ensures
            r == (Style { bold: true, ..self }),
    {
        Style { color: self.color, bold: true, dim: self.dim, reversed: self.reversed }
    }

    /// The same in dim type.
    pub fn dim(self) -> (r: Style)
        ensures
            r == (Style { dim: true, ..self }),
    {
        Style { color: self.color, bold: self.bold, dim: true, reversed: self.reversed }
    }

    /// The same with the colours exchanged.
    pub fn reversed(self) -> (r: Style)
        ensures
            r == (Style { reversed: true, ..self }),
    {
        Style { color: self.color, bold: self.bold, dim: self.dim, reversed: true }
    }
}

/// A text in a style.
#[derive(Debug)]
pub struct Span {
    pub text: String,
    pub style: Style,
}

/// `Span` with its text as a character sequence.
#[verifier::ext_equal]
pub struct SpanView {
    pub text: Seq<char>,
    pub style: Style,
}

impl View for Span {
    type V = SpanView;

    open spec fn view(&self) -> SpanView {
        SpanView { text: self.text@, style: self.style }
    }
}

/// A text in a style.
pub open spec fn span(text: Seq<char>, style: Style) -> SpanView {
    SpanView { text, style }
}

impl Span {
    /// A text in a style.
    pub fn styled(text: &str, style: Style) -> (r: Span)
        ensures
            r@ == span(text@, style),
    {
        Span { text: text.to_owned(), style }
    }

    /// A text as it is.
    pub fn raw(text: &str) -> (r: Span)
        ensures
            r@ == span(text@, plain()),
    {
        Span { text: text.to_owned(), style: Style::plain() }
    }
}

/// A line: one text in a style for the whole line, or texts one after another.
#[derive(Debug)]
pub enum TextLine {
    Whole(Span),
    Spans(Vec<Span>),
}

/// `TextLine` over views.
#[verifier::ext_equal]
pub enum TextLineView {
    Whole(SpanView),
    Spans(Seq<SpanView>),
}

impl View for TextLine {
    type V = TextLineView;

    open spec fn view(&self) -> TextLineView {
        match *self {
            TextLine::Whole(span) => TextLineView::Whole(span@),
            TextLine::Spans(spans) => TextLineView::Spans(views(spans@)),
        }
    }
}

/// A line of one text in a style.
pub open spec fn whole(text: Seq<char>, style: Style) -> TextLineView {
    TextLineView::Whole(span(text, style))
}

/// An empty line.
pub open spec fn blank() -> TextLineView {
    whole(""@, plain())
}

impl TextLine {
    /// A line of one text in a style.
    pub fn whole(text: &str, style: Style) -> (r: TextLine)
        ensures
            r@ == whole(text@, style),
    {
        TextLine::Whole(Span::styled(text, style))
    }

    /// An empty line.
    pub fn blank() -> (r: TextLine)
        ensures
            r@ == blank(),
    {
        TextLine::whole("", Style::plain())
    }
}

/// Adds something to the end of a list.
pub(crate) fn add_to<T: View>(list: &mut Vec<T>, x: T)
    ensures
        views(final(list)@) == views(old(list)@).push(x@),
{
    proof {
        lemma_views_push(list@, x);
    }
    list.push(x);
}

/// An empty list.
pub(crate) fn nothing<T: View>() -> (r: Vec<T>)
    ensures
        views(r@) == Seq::<T::V>::empty(),
{
    let list: Vec<T> = Vec::new();
    assert(views(list@) =~= Seq::<T::V>::empty());
    list
}

/// Adds a list to the end of another.
pub(crate) fn join_to<T: View>(list: &mut Vec<T>, more: Vec<T>)
    ensures
        views(final(list)@) == views(old(list)@) + views(more@),
{
    let ghost before = list@;
    let mut more = more;
    let ghost rest = more@;
    list.append(&mut more);
    assert(views(list@) =~= views(before) + views(rest));
}

/// Lines in a frame.
#[derive(Debug)]
pub struct Panel {
    pub title: Option<String>,
    pub lines: Vec<TextLine>,
    /// Whether wrapped lines lose their leading white space.
    pub trim: bool,
}

/// `Panel` over views.
#[verifier::ext_equal]
pub struct PanelView {
    pub title: Option<Seq<char>>,
    pub lines: Seq<TextLineView>,
    pub trim: bool,
}

impl View for Panel {
    type V = PanelView;

    open spec fn view(&self) -> PanelView {
        PanelView { title: opt_text(self.title), lines: views(self.lines@), trim: self.trim }
    }
}

/// A panel over the middle of the screen, of a width and a height in percent.
#[derive(Debug)]
pub struct Popup {
    pub width: u16,
    pub height: u16,
    pub panel: Panel,
}

/// `Popup` over views.
#[verifier::ext_equal]
pub struct PopupView {
    pub width: u16,
    pub height: u16,
    pub panel: PanelView,
}

impl View for Popup {
    type V = PopupView;

    open spec fn view(&self) -> PopupView {
        PopupView { width: self.width, height: self.height, panel: self.panel@ }
    }
}

/// The parts, in percent, before, in and after a part in the middle.
pub fn centered_parts(percent: u16) -> (r: (u16, u16, u16))
    requires
        percent <= 100,
    ensures
        r.0 == (100 - percent) / 2,
        r.1 == percent,
        r.2 == r.0,
{
    let side: u16 = (100 - percent) / 2;
    (side, percent, side)
}

/// A text cut to a length, with an ellipsis where something was cut off.
pub open spec fn truncated(s: Seq<char>, max: nat) -> Seq<char> {
    if s.len() <= max {
        s
    } else {
        s.take(
            if max > 0 {
                max - 1
            } else {
                0
            },
        ).push('…')
    }
}

/// Cuts a text to a length, with an ellipsis where something was cut off.
pub fn truncate(value: &str, max: usize) -> (r: String)
    ensures
        r@ == truncated(value@, max as nat),
{
    let chars = chars_of(value);
    if chars.len() <= max {
        value.to_owned()
    } else {
        let to: usize = if max > 0 {
            max - 1
        } else {
            0
        };
        let mut out = text_of(&slice_of(&chars, 0, to));
        assert(out@ =~= value@.take(to as int));
        out.push('…');
        out
    }
}

/// A cut text is no longer than the limit.
pub proof fn law_truncated_text_fits(s: Seq<char>, max: nat)
    requires
        max > 0,
    ensures
        truncated(s, max).len() <= max,
{
}

/// The first characters of a text.
pub fn short(value: &str, max: usize) -> (r: String)
    ensures
        r@ == head(value@, max as int),
{
    crate::text::take_head(value, max)
}

/// A text with spaces behind it up to a length.
pub open spec fn padded(s: Seq<char>, len: nat) -> Seq<char>
    decreases len - s.len(),
{
    if s.len() >= len {
        s
    } else {
        padded(s.push(' '), len)
    }
}

/// Puts spaces behind a text up to a length.
pub fn pad(text: &str, len: usize) -> (r: String)
    ensures
        r@ == padded(text@, len as nat),
{
    let mut n: usize = chars_of(text).len();
    let mut out = text.to_owned();
    while n < len
        invariant
            n == out@.len(),
            padded(out@, len as nat) == padded(text@, len as nat),
        decreases len - n,
    {
        out.push(' ');
        n = n + 1;
    }
    out
}

} // verus!
