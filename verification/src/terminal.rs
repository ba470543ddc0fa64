//! The frame of the terminal library that a widget tree is drawn into.
//!
//! A frame is opaque to the verifier. What is said of it is said over three
//! names: the symbols its cells hold, the rectangle it reports as its area,
//! and what rendering a paragraph makes of the symbols.

use vstd::prelude::*;
use crate::region::Region;
use crate::widget_wrappers::wrapper_widget::DrawnTextView;

verus! {

/// A frame of `ratatui`, opaque to the verifier.
#[verifier::external_type_specification]
#[verifier::external_body]
pub struct ExFrame<'a>(ratatui::Frame<'a>);

/// The symbol that each cell of the buffer of a frame holds, by the column
/// and the row of the cell.
pub uninterp spec fn frame_cells(frame: ratatui::Frame<'_>) -> Map<(u16, u16), Seq<char>>;

/// The rectangle that a frame reports as its area: x, y, width, height.
pub uninterp spec fn frame_extent(frame: ratatui::Frame<'_>) -> (u16, u16, u16, u16);

/// The symbols that the cells of a buffer hold after a paragraph of `text`
/// has been rendered into the rectangle `x, y, width, height` of it, where
/// they held `cells` before.
pub uninterp spec fn paragraph_cells(
    cells: Map<(u16, u16), Seq<char>>,
    x: u16,
    y: u16,
    width: u16,
    height: u16,
    text: Seq<char>,
) -> Map<(u16, u16), Seq<char>>;

/// Whether `after` holds the cells that `before` holds, each cell outside the
/// rectangle `x, y, width, height` with the symbol it had.
pub open spec fn kept_outside_rectangle(
    before: Map<(u16, u16), Seq<char>>,
    after: Map<(u16, u16), Seq<char>>,
    x: u16,
    y: u16,
    width: u16,
    height: u16,
) -> bool {
    &&& after.dom() == before.dom()
    &&& forall|column: u16, row: u16|
        before.contains_key((column, row)) && !(x <= column < x + width && y <= row < y + height)
            ==> #[trigger] after[(column, row)] == before[(column, row)]
}

/// Whether `after` holds the cells that `before` holds, each cell outside
/// `area` with the symbol it had.
pub open spec fn kept_outside(
    before: Map<(u16, u16), Seq<char>>,
    after: Map<(u16, u16), Seq<char>>,
    area: Region,
) -> bool {
    &&& after.dom() == before.dom()
    &&& forall|column: u16, row: u16|
        before.contains_key((column, row)) && !area.holds(column as int, row as int)
            ==> #[trigger] after[(column, row)] == before[(column, row)]
}

/// The whole area of a frame as a region.
pub open spec fn whole_area(frame: ratatui::Frame<'_>) -> Region {
    Region::clamped(
        frame_extent(frame).0,
        frame_extent(frame).1,
        frame_extent(frame).2,
        frame_extent(frame).3,
    )
}

/// The widest rectangle, in columns, that a paragraph is rendered into. The
/// terminal library adds up the widths of a line in sixteen bits; within
/// this width no such sum passes `u16::MAX`.
pub const MAX_PARAGRAPH_WIDTH: u16 = 0x7FFF;

/// How many columns of `area` a paragraph is rendered into: all of them, or
/// the first [`MAX_PARAGRAPH_WIDTH`] where the region is wider.
pub open spec fn paragraph_width(area: Region) -> u16 {
    if area.columns() <= MAX_PARAGRAPH_WIDTH {
        area.columns() as u16
    } else {
        MAX_PARAGRAPH_WIDTH
    }
}

/// The symbols of the cells after `text` has been drawn into `area`: a
/// paragraph of `text` is rendered into the rectangle that begins where
/// `area` begins, is as high as `area` and [`paragraph_width`] wide.
pub open spec fn drawn_into(cells: Map<(u16, u16), Seq<char>>, area: Region, text: Seq<char>) -> Map<
    (u16, u16),
    Seq<char>,
> {
    paragraph_cells(
        cells,
        area.left() as u16,
        area.top() as u16,
        paragraph_width(area),
        area.rows() as u16,
        text,
    )
}

/// The symbols of the cells after the first `upto` texts of `draws` have
/// been drawn, one after the other, each into its region.
pub open spec fn painted(cells: Map<(u16, u16), Seq<char>>, draws: Seq<DrawnTextView>, upto: nat) -> Map<
    (u16, u16),
    Seq<char>,
>
    decreases upto,
{
    if 0 < upto <= draws.len() {
        drawn_into(
            painted(cells, draws, (upto - 1) as nat),
            draws[upto - 1].area,
            draws[upto - 1].text,
        )
    } else {
        cells
    }
}

/// Whether none of the first `upto` texts of `draws` has been painted over:
/// every cell of the region of such a text holds in `after` the symbol it
/// held when that text had just been drawn.
pub open spec fn none_painted_over(
    before: Map<(u16, u16), Seq<char>>,
    after: Map<(u16, u16), Seq<char>>,
    draws: Seq<DrawnTextView>,
    upto: nat,
) -> bool {
    forall|count: nat, column: u16, row: u16|
        1 <= count <= upto && count <= draws.len() && before.contains_key((column, row))
            && draws[count - 1].area.holds(column as int, row as int) ==> after[(column, row)]
            == #[trigger] painted(before, draws, count)[(column, row)]
}

/// Calls `ratatui::Frame::area` and hands back the four coordinates of the
/// rectangle it returns: x, y, width, height. They are what `frame_extent`
/// names.
#[verifier::external_body]
fn frame_area(frame: &ratatui::Frame<'_>) -> (area: (u16, u16, u16, u16))
    ensures
        area == frame_extent(*frame),
{
    let area = frame.area();
    (area.x, area.y, area.width, area.height)
}

/// Calls `ratatui::Frame::render_widget` with a `ratatui::widgets::Paragraph`
/// made of `text` and the rectangle of the four coordinates. The call leaves
/// the area of the frame as it is, and the symbols of the cells are
/// afterwards what `paragraph_cells` names for the symbols before, the
/// rectangle and the text. The call adds and removes no cell, and a cell
/// outside the rectangle keeps its symbol. The rectangle is at most
/// [`MAX_PARAGRAPH_WIDTH`] wide: the call is not made with a width on which
/// the library's sixteen-bit sums of line widths could overflow.
#[verifier::external_body]
fn draw_paragraph(
    frame: &mut ratatui::Frame<'_>,
    x: u16,
    y: u16,
    width: u16,
    height: u16,
    text: &str,
)
    requires
        width <= MAX_PARAGRAPH_WIDTH,
    ensures
        frame_extent(*final(frame)) == frame_extent(*old(frame)),
        frame_cells(*final(frame)) == paragraph_cells(
            frame_cells(*old(frame)),
            x,
            y,
            width,
            height,
            text@,
        ),
        kept_outside_rectangle(
            frame_cells(*old(frame)),
            frame_cells(*final(frame)),
            x,
            y,
            width,
            height,
        ),
{
    let area = ratatui::layout::Rect { x, y, width, height };
    frame.render_widget(ratatui::widgets::Paragraph::new(text), area);
}

/// The whole area of `frame` as a region.
pub(crate) fn full_area(frame: &ratatui::Frame<'_>) -> (area: Region)
    ensures
        area == whole_area(*frame),
{
    let (x, y, width, height) = frame_area(frame);
    Region::new(x, y, width, height)
}

/// Draws `text` into `area` of `frame`, or into the first
/// [`MAX_PARAGRAPH_WIDTH`] columns of `area` where it is wider.
pub(crate) fn draw_text(frame: &mut ratatui::Frame<'_>, area: Region, text: &str)
    ensures
        frame_extent(*final(frame)) == frame_extent(*old(frame)),
        frame_cells(*final(frame)) == drawn_into(frame_cells(*old(frame)), area, text@),
        kept_outside(frame_cells(*old(frame)), frame_cells(*final(frame)), area),
{
    proof {
        use_type_invariant(&area);
        area.lemma_bounds();
    }
    let width = if area.width() <= MAX_PARAGRAPH_WIDTH {
        area.width()
    } else {
        MAX_PARAGRAPH_WIDTH
    };
    draw_paragraph(frame, area.x(), area.y(), width, area.height(), text);
}

} // verus!
