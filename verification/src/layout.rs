//! Screen areas and the placement of pop-up windows.
use ratatui::layout::{Constraint, Direction, Layout};
use vstd::prelude::*;

verus! {

/// A rectangle of terminal cells.
#[derive(Debug, Clone, Copy, PartialEq, Eq, Structural)]
pub struct Rect {
    pub x: u16,
    pub y: u16,
    pub width: u16,
    pub height: u16,
}

/// The direction in which an area is cut into parts.
#[derive(Debug, Clone, Copy, PartialEq, Eq, Structural)]
pub enum Axis {
    Vertical,
    Horizontal,
}

/// What ratatui's `Layout::split` makes of `area` cut along `axis` into three
/// parts of `a`, `b` and `c` percent.
pub uninterp spec fn layout_thirds(area: Rect, axis: Axis, a: u16, b: u16, c: u16) -> (
    Rect,
    Rect,
    Rect,
);

/// Cuts `area` along `axis` into three parts with ratatui's `Layout`, whose
/// constraints are `Constraint::Percentage(a)`, `(b)` and `(c)`. The
/// constraint solver is not restated: the three parts are only named, as a
/// function of the arguments, for percentages that sum to at most 100.
#[verifier::external_body]
fn split_thirds(area: Rect, axis: Axis, a: u16, b: u16, c: u16) -> (r: (Rect, Rect, Rect))
    requires
        a + b + c <= 100,
    ensures
        r == layout_thirds(area, axis, a, b, c),
{
    let direction = match axis {
        Axis::Vertical => Direction::Vertical,
        Axis::Horizontal => Direction::Horizontal,
    };
    let parts = Layout::default().direction(direction).constraints(
        [Constraint::Percentage(a), Constraint::Percentage(b), Constraint::Percentage(c)],
    ).split(ratatui::layout::Rect { x: area.x, y: area.y, width: area.width, height: area.height });
    let back = |q: ratatui::layout::Rect| Rect { x: q.x, y: q.y, width: q.width, height: q.height };
    (back(parts[0]), back(parts[1]), back(parts[2]))
}

/// The area of a pop-up window: the middle `percent_y` percent of `r`'s
/// height, and of that the middle `percent_x` percent of the width.
pub open spec fn spec_centered_rect(percent_x: u16, percent_y: u16, r: Rect) -> Rect {
    let side_y = ((100 - percent_y) / 2) as u16;
    let side_x = ((100 - percent_x) / 2) as u16;
    let band = layout_thirds(r, Axis::Vertical, side_y, percent_y, side_y).1;
    layout_thirds(band, Axis::Horizontal, side_x, percent_x, side_x).1
}

/// Centers a pop-up window of `percent_x` by `percent_y` percent of `r`.
pub fn centered_rect(percent_x: u16, percent_y: u16, r: Rect) -> (res: Rect)
    requires
        percent_x <= 100,
        percent_y <= 100,
    ensures
        res == spec_centered_rect(percent_x, percent_y, r),
{
    let side_y = (100 - percent_y) / 2;
    let popup = split_thirds(r, Axis::Vertical, side_y, percent_y, side_y);
    let side_x = (100 - percent_x) / 2;
    split_thirds(popup.1, Axis::Horizontal, side_x, percent_x, side_x).1
}

} // verus!
