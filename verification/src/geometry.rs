//! Plain geometric value types used by the layout pass: sizes, offsets and
//! layout constraints, measured in whole terminal cells.

use vstd::prelude::*;

verus! {

/// The extent of a node, in cells.
#[derive(Debug, Clone, Copy, PartialEq, Eq, Structural)]
pub struct Size {
    pub width: u64,
    pub height: u64,
}

impl Size {
    /// The empty size.
    pub fn zero() -> (s: Size)
        ensures
            s.width == 0,
            s.height == 0,
    {
        Size { width: 0, height: 0 }
    }
}

/// A position, in cells, relative to the top-left corner of the screen.
#[derive(Debug, Clone, Copy, PartialEq, Eq, Structural)]
pub struct Offset {
    pub x: u64,
    pub y: u64,
}

impl Offset {
    /// The origin.
    pub fn zero() -> (o: Offset)
        ensures
            o.x == 0,
            o.y == 0,
    {
        Offset { x: 0, y: 0 }
    }
}

/// The range of sizes offered to a node during layout.
#[derive(Debug, Clone, Copy, PartialEq, Eq, Structural)]
pub struct Constraint {
    pub min_width: u64,
    pub max_width: u64,
    pub min_height: u64,
    pub max_height: u64,
}

impl Constraint {
    /// A constraint admitting anything from the empty size up to the given
    /// width and height.
    pub fn new(width: u64, height: u64) -> (c: Constraint)
        ensures
            c == (Constraint { min_width: 0, max_width: width, min_height: 0, max_height: height }),
    {
        Constraint { min_width: 0, max_width: width, min_height: 0, max_height: height }
    }

    /// Shrinks the available width by `width`, clamping at the minimum width.
    pub fn sub_width(&mut self, width: u64)
        ensures
            *final(self) == (Constraint { max_width: spec_shrink(old(self).max_width, width, old(self).min_width), ..*old(self) }),
    {
        let shrunk = if self.max_width >= width {
            self.max_width - width
        } else {
            0
        };
        self.max_width = if shrunk >= self.min_width {
            shrunk
        } else {
            self.min_width
        };
    }

    /// Shrinks the available height by `height`, clamping at the minimum
    /// height.
    pub fn sub_height(&mut self, height: u64)
        ensures
            *final(self) == (Constraint { max_height: spec_shrink(old(self).max_height, height, old(self).min_height), ..*old(self) }),
    {
        let shrunk = if self.max_height >= height {
            self.max_height - height
        } else {
            0
        };
        self.max_height = if shrunk >= self.min_height {
            shrunk
        } else {
            self.min_height
        };
    }
}

/// The result of taking `amount` away from `avail`, never going below
/// `floor` (nor below zero).
pub open spec fn spec_shrink(avail: u64, amount: u64, floor: u64) -> u64 {
    let shrunk: u64 = if avail >= amount {
        (avail - amount) as u64
    } else {
        0u64
    };
    if shrunk >= floor {
        shrunk
    } else {
        floor
    }
}

/// Addition that stops at the largest representable value instead of
/// wrapping.
pub open spec fn sat_add(a: u64, b: u64) -> u64 {
    if a + b > u64::MAX {
        u64::MAX
    } else {
        (a + b) as u64
    }
}

/// Adds two cell counts, saturating at the maximum.
pub fn add_saturating(a: u64, b: u64) -> (r: u64)
    ensures
        r == sat_add(a, b),
{
    if b > u64::MAX - a {
        u64::MAX
    } else {
        a + b
    }
}

} // verus!
