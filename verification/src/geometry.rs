//! Cells of the terminal screen.
use vstd::prelude::*;

verus! {

/// An area of screen cells.
#[derive(Clone, Copy, Debug, PartialEq, Eq)]
pub struct Rect {
    pub x: u16,
    pub y: u16,
    pub width: u16,
    pub height: u16,
}

impl Rect {
    /// The first column right of the area; the last column there is ends it.
    pub open spec fn right(self) -> int {
        if self.x + self.width <= u16::MAX {
            self.x + self.width
        } else {
            u16::MAX as int
        }
    }

    /// The first row below the area; the last row there is ends it.
    pub open spec fn bottom(self) -> int {
        if self.y + self.height <= u16::MAX {
            self.y + self.height
        } else {
            u16::MAX as int
        }
    }

    /// Whether the cell at column `point.0` and row `point.1` lies in the area.
    pub open spec fn covers(self, point: (u16, u16)) -> bool {
        self.x <= point.0 < self.right() && self.y <= point.1 < self.bottom()
    }

    /// Whether the area has no cells.
    pub open spec fn blank(self) -> bool {
        self.width == 0 || self.height == 0
    }

    /// Whether the area has no cells.
    pub fn is_blank(&self) -> (blank: bool)
        ensures
            blank == self.blank(),
    {
        self.width == 0 || self.height == 0
    }
}

/// Whether the cell at column `point.0` and row `point.1` lies in `rect`.
pub fn contains(rect: Rect, point: (u16, u16)) -> (inside: bool)
    ensures
        inside == rect.covers(point),
{
    rect.x <= point.0 && point.0 < rect.x.saturating_add(rect.width) && rect.y <= point.1 && point.1
        < rect.y.saturating_add(rect.height)
}

/// No cell lies in an area without cells.
pub proof fn blank_area_covers_nothing(rect: Rect, point: (u16, u16))
    requires
        rect.blank(),
    ensures
        !rect.covers(point),
{
}

/// An area holds the cells from its first column and row on, as many as it is
/// wide and high. The last column and row of all belong to no area.
pub proof fn area_is_as_wide_and_high_as_it_says(rect: Rect, point: (u16, u16))
    ensures
        rect.covers(point) <==> {
            &&& 0 <= point.0 - rect.x < rect.width
            &&& 0 <= point.1 - rect.y < rect.height
            &&& point.0 < 65535
            &&& point.1 < 65535
        },
        rect.blank() <==> !(rect.width > 0 && rect.height > 0),
{
}

} // verus!
