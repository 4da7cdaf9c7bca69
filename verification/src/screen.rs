//! What is shown on the screen: rectangles, styled text, and where it is drawn.

use ratatui::layout::Constraint;
use ratatui::layout::Direction;
use ratatui::layout::Layout;
use vstd::prelude::*;
use vstd::string::*;

use crate::text::views;

verus! {

/// A rectangle of cells: its left column, its top row, its width and its height.
#[derive(Clone, Copy, Debug, PartialEq, Eq, Structural)]
pub struct Rect {
    pub x: u16,
    pub y: u16,
    pub width: u16,
    pub height: u16,
}

impl Rect {
    /// The rectangle with this corner and at most this size, so that it ends at the last cell.
    pub open spec fn at(x: int, y: int, width: int, height: int) -> Rect {
        Rect {
            x: x as u16,
            y: y as u16,
            width: (if width > u16::MAX - x {
                u16::MAX - x
            } else {
                width
            }) as u16,
            height: (if height > u16::MAX - y {
                u16::MAX - y
            } else {
                height
            }) as u16,
        }
    }

    /// The first column to the right of the rectangle, or the last one there is.
    pub open spec fn end_col(self) -> int {
        if self.x + self.width > u16::MAX {
            u16::MAX as int
        } else {
            self.x + self.width
        }
    }

    /// The first row below the rectangle, or the last one there is.
    pub open spec fn end_row(self) -> int {
        if self.y + self.height > u16::MAX {
            u16::MAX as int
        } else {
            self.y + self.height
        }
    }

    /// Whether a cell lies in the rectangle.
    pub open spec fn holds(self, col: u16, row: u16) -> bool {
        self.x <= col < self.end_col() && self.y <= row < self.end_row()
    }

    /// The rectangle without a margin on each side. It is empty where the margins leave nothing.
    pub open spec fn inside(self, horizontal: int, vertical: int) -> Rect {
        if self.width < 2 * horizontal || self.height < 2 * vertical {
            Rect { x: 0, y: 0, width: 0, height: 0 }
        } else {
            Rect {
                x: (if self.x + horizontal > u16::MAX {
                    u16::MAX as int
                } else {
                    self.x + horizontal
                }) as u16,
                y: (if self.y + vertical > u16::MAX {
                    u16::MAX as int
                } else {
                    self.y + vertical
                }) as u16,
                width: (self.width - 2 * horizontal) as u16,
                height: (self.height - 2 * vertical) as u16,
            }
        }
    }

    /// Makes a rectangle, cut so that it ends at the last cell.
    pub fn new(x: u16, y: u16, width: u16, height: u16) -> (r: Self)
        ensures
            r == Rect::at(x as int, y as int, width as int, height as int),
    {
        let max_width: u16 = u16::MAX - x;
        let max_height: u16 = u16::MAX - y;
        Rect {
            x,
            y,
            width: if width > max_width {
                max_width
            } else {
                width
            },
            height: if height > max_height {
                max_height
            } else {
                height
            },
        }
    }

    /// The first column to the right of the rectangle.
    pub fn right(&self) -> (r: u16)
        ensures
            r == self.end_col(),
    {
        if self.width > u16::MAX - self.x {
            u16::MAX
        } else {
            self.x + self.width
        }
    }

    /// The first row below the rectangle.
    pub fn bottom(&self) -> (r: u16)
        ensures
            r == self.end_row(),
    {
        if self.height > u16::MAX - self.y {
            u16::MAX
        } else {
            self.y + self.height
        }
    }

    /// Tells whether a cell lies in the rectangle.
    pub fn contains(&self, col: u16, row: u16) -> (r: bool)
        ensures
            r == self.holds(col, row),
    {
        self.x <= col && col < self.right() && self.y <= row && row < self.bottom()
    }

    /// The rectangle without a margin of `horizontal` columns and `vertical` rows on each side.
    pub fn inner(&self, horizontal: u8, vertical: u8) -> (r: Rect)
        ensures
            r == self.inside(horizontal as int, vertical as int),
    {
        let h: u16 = horizontal as u16;
        let v: u16 = vertical as u16;
        if self.width < 2 * h || self.height < 2 * v {
            return Rect { x: 0, y: 0, width: 0, height: 0 };
        }
        Rect {
            x: if self.x > u16::MAX - h {
                u16::MAX
            } else {
                self.x + h
            },
            y: if self.y > u16::MAX - v {
                u16::MAX
            } else {
                self.y + v
            },
            width: self.width - 2 * h,
            height: self.height - 2 * v,
        }
    }
}

/// The foreground colours in use.
#[derive(Clone, Copy, Debug, PartialEq, Eq, Structural)]
pub enum Color {
    Plain,
    Red,
    Green,
    Cyan,
    Magenta,
}

/// How text looks.
#[derive(Clone, Copy, Debug, PartialEq, Eq, Structural)]
pub struct Style {
    pub color: Color,
    pub bold: bool,
    pub dim: bool,
}

/// Text of one style.
#[derive(Debug)]
pub struct Span {
    pub text: String,
    pub style: Style,
}

/// A line of styled text. A bold line makes all of its text bold.
#[derive(Debug)]
pub struct Line {
    pub spans: Vec<Span>,
    pub bold: bool,
}

/// The model of a `Span`.
#[verifier::ext_equal]
pub struct SpanView {
    pub text: Seq<char>,
    pub style: Style,
}

/// The model of a `Line`.
#[verifier::ext_equal]
pub struct LineView {
    pub spans: Seq<SpanView>,
    pub bold: bool,
}

impl View for Span {
    type V = SpanView;

    open spec fn view(&self) -> SpanView {
        SpanView { text: self.text@, style: self.style }
    }
}

impl View for Line {
    type V = LineView;

    open spec fn view(&self) -> LineView {
        LineView { spans: views(self.spans@), bold: self.bold }
    }
}

impl Clone for Span {
    fn clone(&self) -> (r: Self)
        ensures
            r@ == self@,
    {
        Span { text: self.text.clone(), style: self.style }
    }
}

impl Clone for Line {
    fn clone(&self) -> (r: Self)
        ensures
            r@ == self@,
    {
        let mut spans: Vec<Span> = Vec::new();
        let mut i: usize = 0;
        while i < self.spans.len()
            invariant
                i <= self.spans@.len(),
                spans@.len() == i,
                forall|j: int| 0 <= j < i ==> (#[trigger] spans@[j])@ == self.spans@[j]@,
            decreases self.spans@.len() - i,
        {
            spans.push(self.spans[i].clone());
            i += 1;
        }
        assert(views(spans@) =~= views(self.spans@));
        Line { spans, bold: self.bold }
    }
}

/// Default text.
pub open spec fn plain_style() -> Style {
    Style { color: Color::Plain, bold: false, dim: false }
}

/// Text in a colour.
pub open spec fn color_style(color: Color) -> Style {
    Style { color, bold: false, dim: false }
}

/// Secondary text.
pub open spec fn dim_style() -> Style {
    Style { color: Color::Plain, bold: false, dim: true }
}

/// Headers.
pub open spec fn bold_style() -> Style {
    Style { color: Color::Plain, bold: true, dim: false }
}

/// Text in a style.
pub open spec fn styled(text: Seq<char>, style: Style) -> SpanView {
    SpanView { text, style }
}

/// A line of one span of default text.
pub open spec fn plain_line(text: Seq<char>) -> LineView {
    LineView { spans: seq![styled(text, plain_style())], bold: false }
}

/// A line of one span in a colour.
pub open spec fn color_line(text: Seq<char>, color: Color) -> LineView {
    LineView { spans: seq![styled(text, color_style(color))], bold: false }
}

impl Span {
    /// Default text.
    pub fn raw(text: &str) -> (r: Self)
        ensures
            r@ == styled(text@, plain_style()),
    {
        Span {
            text: text.to_owned(),
            style: Style { color: Color::Plain, bold: false, dim: false },
        }
    }

    /// Text in a colour.
    pub fn colored(text: &str, color: Color) -> (r: Self)
        ensures
            r@ == styled(text@, color_style(color)),
    {
        Span { text: text.to_owned(), style: Style { color, bold: false, dim: false } }
    }

    /// Secondary text.
    pub fn dim(text: &str) -> (r: Self)
        ensures
            r@ == styled(text@, dim_style()),
    {
        Span { text: text.to_owned(), style: Style { color: Color::Plain, bold: false, dim: true } }
    }

    /// A header.
    pub fn bold(text: &str) -> (r: Self)
        ensures
            r@ == styled(text@, bold_style()),
    {
        Span { text: text.to_owned(), style: Style { color: Color::Plain, bold: true, dim: false } }
    }
}

impl Line {
    /// A line of one span.
    pub fn of(span: Span) -> (r: Self)
        ensures
            r@ == (LineView { spans: seq![span@], bold: false }),
    {
        let mut spans: Vec<Span> = Vec::new();
        spans.push(span);
        assert(views(spans@) =~= seq![span@]);
        Line { spans, bold: false }
    }

    /// A line of default text.
    pub fn raw(text: &str) -> (r: Self)
        ensures
            r@ == plain_line(text@),
    {
        Line::of(Span::raw(text))
    }

    /// A line of text in a colour.
    pub fn colored(text: &str, color: Color) -> (r: Self)
        ensures
            r@ == color_line(text@, color),
    {
        Line::of(Span::colored(text, color))
    }
}

/// Where text stands in its rectangle.
#[derive(Clone, Copy, Debug, PartialEq, Eq, Structural)]
pub enum Align {
    Left,
    Right,
}

/// One step of drawing.
#[derive(Debug)]
pub enum DrawOp {
    /// Blank out a rectangle.
    Clear(Rect),
    /// Draw lines of text, cut to a rectangle.
    Text { area: Rect, lines: Vec<Line>, align: Align },
}

/// The model of a `DrawOp`.
#[verifier::ext_equal]
pub enum DrawView {
    Clear(Rect),
    Text { area: Rect, lines: Seq<LineView>, align: Align },
}

impl View for DrawOp {
    type V = DrawView;

    open spec fn view(&self) -> DrawView {
        match self {
            DrawOp::Clear(area) => DrawView::Clear(*area),
            DrawOp::Text { area, lines, align } => DrawView::Text {
                area: *area,
                lines: views(lines@),
                align: *align,
            },
        }
    }
}

/// Lines of text at the left of a rectangle.
pub open spec fn text_op(area: Rect, lines: Seq<LineView>) -> DrawView {
    DrawView::Text { area, lines, align: Align::Left }
}

/// One line of text at the left of a rectangle.
pub open spec fn line_op(area: Rect, line: LineView) -> DrawView {
    text_op(area, seq![line])
}

impl DrawOp {
    /// One line of text.
    pub fn line(area: Rect, line: Line, align: Align) -> (r: Self)
        ensures
            r@ == (DrawView::Text { area, lines: seq![line@], align }),
    {
        let mut lines: Vec<Line> = Vec::new();
        lines.push(line);
        assert(views(lines@) =~= seq![line@]);
        DrawOp::Text { area, lines, align }
    }
}

/// How wide a column is to be.
#[derive(Clone, Copy, Debug, PartialEq, Eq, Structural)]
pub enum Extent {
    /// So many cells.
    Length(u16),
    /// No fewer cells than this.
    AtLeast(u16),
    /// So many parts of a hundred.
    Percentage(u16),
}

/// The cells that the first of two columns gets of a width. A column of some length gets it, as far
/// as the other one keeps its least width; that one gets all the rest. Percentages that make up a
/// hundred share the width, rounded half up.
pub open spec fn share_of(first: Extent, second: Extent, width: int) -> Option<int> {
    match (first, second) {
        (Extent::Length(n), Extent::AtLeast(least)) => if least <= i16::MAX {
            let room = if width < least {
                0
            } else {
                width - least
            };
            Some(
                if n < room {
                    n as int
                } else {
                    room
                },
            )
        } else {
            None
        },
        (Extent::Percentage(p), Extent::Percentage(q)) => if p + q == 100 {
            Some((p * width + 50) / 100)
        } else {
            None
        },
        _ => None,
    }
}

/// The first `n` columns of an area.
pub open spec fn left_part(area: Rect, n: int) -> Rect {
    Rect { x: area.x, y: area.y, width: n as u16, height: area.height }
}

/// An area without its first `n` columns.
pub open spec fn right_part(area: Rect, n: int) -> Rect {
    Rect {
        x: (area.x + n) as u16,
        y: area.y,
        width: (area.width - n) as u16,
        height: area.height,
    }
}

/// Trusted: `Layout::split` cuts an area into two columns, one beside the other. The solver weighs a
/// least width over a length, a length over growth, and keeps columns in the area and without gaps,
/// so that the first column gets its share and the second one the rest. Positions are rounded to
/// whole cells.
#[verifier::external_body]
pub(crate) fn split_columns(area: Rect, first: Extent, second: Extent) -> (r: (Rect, Rect))
    requires
        area.x + area.width <= u16::MAX,
        area.y + area.height <= u16::MAX,
        share_of(first, second, area.width as int) is Some,
    ensures
        r.0 == left_part(area, share_of(first, second, area.width as int)->0),
        r.1 == right_part(area, share_of(first, second, area.width as int)->0),
{
    let constraint = |extent| match extent {
        Extent::Length(n) => Constraint::Length(n),
        Extent::AtLeast(n) => Constraint::Min(n),
        Extent::Percentage(n) => Constraint::Percentage(n),
    };
    let layout = Layout::default().direction(Direction::Horizontal);
    let area = ratatui::layout::Rect::new(area.x, area.y, area.width, area.height);
    let columns = layout.constraints([constraint(first), constraint(second)]).split(area);
    let rect = |c: ratatui::layout::Rect| Rect { x: c.x, y: c.y, width: c.width, height: c.height };
    (rect(columns[0]), rect(columns[1]))
}

/// Law: a rectangle has the corner it was given, and the size as far as it fits before the last cell.
pub proof fn law_rect(x: u16, y: u16, width: u16, height: u16, r: Rect)
    requires
        call_ensures(Rect::new, (x, y, width, height), r),
    ensures
        r.x == x,
        r.y == y,
        r.x + r.width <= u16::MAX,
        r.y + r.height <= u16::MAX,
        x + width <= u16::MAX ==> r.width == width,
        y + height <= u16::MAX ==> r.height == height,
        x + width > u16::MAX ==> r.x + r.width == u16::MAX,
        y + height > u16::MAX ==> r.y + r.height == u16::MAX,
{
}

/// Law: the cells of a rectangle are those from its corner on, as many columns and rows as it has.
pub proof fn law_cells(r: &Rect, col: u16, row: u16, inside: bool, right: u16, bottom: u16)
    requires
        call_ensures(Rect::contains, (r, col, row), inside),
        call_ensures(Rect::right, (r,), right),
        call_ensures(Rect::bottom, (r,), bottom),
        r.x + r.width <= u16::MAX,
        r.y + r.height <= u16::MAX,
    ensures
        inside <==> 0 <= col - r.x < r.width && 0 <= row - r.y < r.height,
        right == r.x + r.width,
        bottom == r.y + r.height,
{
}

/// Law: a margin is taken away on each side. Where it leaves nothing the rectangle is empty.
pub proof fn law_margins(r: &Rect, horizontal: u8, vertical: u8, q: Rect)
    requires
        call_ensures(Rect::inner, (r, horizontal, vertical), q),
        r.x + r.width <= u16::MAX,
        r.y + r.height <= u16::MAX,
    ensures
        r.width >= 2 * horizontal && r.height >= 2 * vertical ==> {
            &&& q.x == r.x + horizontal
            &&& q.y == r.y + vertical
            &&& q.x + q.width + horizontal == r.x + r.width
            &&& q.y + q.height + vertical == r.y + r.height
        },
        r.width < 2 * horizontal || r.height < 2 * vertical ==> q.width == 0 && q.height == 0,
{
}

/// Law: text is shown in the style that it was made in.
pub proof fn law_styles(text: &str, color: Color, a: Span, b: Span, c: Span, d: Span)
    requires
        call_ensures(Span::raw, (text,), a),
        call_ensures(Span::colored, (text, color), b),
        call_ensures(Span::dim, (text,), c),
        call_ensures(Span::bold, (text,), d),
    ensures
        a.text@ == text@ && b.text@ == text@ && c.text@ == text@ && d.text@ == text@,
        a.style.color == Color::Plain && !a.style.bold && !a.style.dim,
        b.style.color == color && !b.style.bold && !b.style.dim,
        c.style.color == Color::Plain && !c.style.bold && c.style.dim,
        d.style.color == Color::Plain && d.style.bold && !d.style.dim,
{
    assert(a@.text == a.text@ && b@.text == b.text@ && c@.text == c.text@ && d@.text == d.text@);
    assert(a@.style == a.style && b@.style == b.style && c@.style == c.style && d@.style
        == d.style);
}

/// Law: a line of text is that text, in its colour or in none.
pub proof fn law_lines_of_text(text: &str, color: Color, a: Line, b: Line)
    requires
        call_ensures(Line::raw, (text,), a),
        call_ensures(Line::colored, (text, color), b),
    ensures
        !a.bold && !b.bold,
        a.spans@.len() == 1 && b.spans@.len() == 1,
        a.spans@[0].text@ == text@ && b.spans@[0].text@ == text@,
        a.spans@[0].style.color == Color::Plain,
        b.spans@[0].style.color == color,
        !a.spans@[0].style.bold && !b.spans@[0].style.bold,
        !a.spans@[0].style.dim && !b.spans@[0].style.dim,
{
    assert(a@.spans.len() == 1 && b@.spans.len() == 1);
    assert(a@.spans[0] == a.spans@[0]@);
    assert(b@.spans[0] == b.spans@[0]@);
}

} // verus!
