//! Settings of the scrollbars drawn over scrollable panels.

use vstd::prelude::*;

verus! {

/// Which scrollbars a panel gets.
#[derive(Clone, Copy, PartialEq, Eq, Structural, Debug)]
pub enum ScrollbarAxis {
    Vertical,
    Both,
}

/// Which directions the mouse wheel scrolls.
#[derive(Clone, Copy, PartialEq, Eq, Structural, Debug)]
pub enum WheelScrollMode {
    Native,
    Both,
}

/// Whether a panel with `axis` shows a vertical scrollbar for content
/// `overflows_vertically`, and a horizontal one for content
/// `overflows_horizontally`.
pub fn visible_scrollbars(
    axis: ScrollbarAxis,
    overflows_vertically: bool,
    overflows_horizontally: bool,
) -> (shown: (bool, bool))
    ensures
        shown.0 == overflows_vertically,
        shown.1 == (axis == ScrollbarAxis::Both && overflows_horizontally),
{
    let show_vertical = overflows_vertically;
    let show_horizontal = match axis {
        ScrollbarAxis::Both => overflows_horizontally,
        ScrollbarAxis::Vertical => false,
    };
    (show_vertical, show_horizontal)
}

} // verus!
