//! Screen rectangles and the split of the screen into the two panels.

use vstd::prelude::*;
use ratatui::layout::{Constraint, Layout};

verus! {

/// A rectangle of screen cells.
#[derive(Clone, Copy, Debug, PartialEq, Eq, Structural)]
pub struct Rect {
    /// Column of the top-left cell.
    pub x: u16,
    /// Row of the top-left cell.
    pub y: u16,
    /// Number of columns.
    pub width: u16,
    /// Number of rows.
    pub height: u16,
}

/// `ratatui::layout::Layout::split` on a vertical layout of two parts without
/// margin: the upper part asks for at least `top_min` rows, the lower one for
/// `bottom_len` rows. Both parts keep the area's column and width; which rows
/// each part gets is decided by the layout solver, and nothing is claimed of
/// it here.
#[verifier::external_body]
pub(crate) fn split_rows(area: Rect, top_min: u16, bottom_len: u16) -> (parts: (Rect, Rect))
    ensures
        parts.0.x == area.x,
        parts.0.width == area.width,
        parts.1.x == area.x,
        parts.1.width == area.width,
{
    let whole = ratatui::layout::Rect {
        x: area.x,
        y: area.y,
        width: area.width,
        height: area.height,
    };
    let rects = Layout::vertical([Constraint::Min(top_min), Constraint::Length(bottom_len)])
        .split(whole);
    (
        Rect { x: rects[0].x, y: rects[0].y, width: rects[0].width, height: rects[0].height },
        Rect { x: rects[1].x, y: rects[1].y, width: rects[1].width, height: rects[1].height },
    )
}

} // verus!
