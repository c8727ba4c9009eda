//! Axis-aligned rectangles in terminal cell units and the proportional split
//! that the treemap is built from.

use vstd::prelude::*;

verus! {

/// The direction along which a rectangle is divided.
///
/// `Horizontal` places the two parts side by side (the width is divided);
/// `Vertical` stacks them (the height is divided).
#[derive(Clone, Copy, Debug, PartialEq, Eq, Structural)]
pub enum Axis {
    Horizontal,
    Vertical,
}

impl Axis {
    /// The other axis.
    pub open spec fn orthogonal_spec(self) -> Axis {
        match self {
            Axis::Horizontal => Axis::Vertical,
            Axis::Vertical => Axis::Horizontal,
        }
    }

    /// The other axis.
    #[verifier::when_used_as_spec(orthogonal_spec)]
    pub fn orthogonal(self) -> (other: Axis)
        ensures
            other == self.orthogonal_spec(),
    {
        match self {
            Axis::Horizontal => Axis::Vertical,
            Axis::Vertical => Axis::Horizontal,
        }
    }
}

/// The mathematical model of a rectangle: the cells `(cx, cy)` with
/// `x <= cx < x + width` and `y <= cy < y + height`.
pub struct Region {
    pub x: int,
    pub y: int,
    pub width: int,
    pub height: int,
}

impl Region {
    /// Whether the cell `(cx, cy)` lies inside the region.
    pub open spec fn contains(self, cx: int, cy: int) -> bool {
        &&& self.x <= cx < self.x + self.width
        &&& self.y <= cy < self.y + self.height
    }

    /// The set of cells of the region.
    pub open spec fn cells(self) -> Set<(int, int)> {
        Set::new(|c: (int, int)| self.contains(c.0, c.1))
    }

    /// The number of cells of the region.
    pub open spec fn area(self) -> int {
        if self.width <= 0 || self.height <= 0 {
            0
        } else {
            self.width * self.height
        }
    }

    /// The extent of the region along `axis`.
    pub open spec fn extent(self, axis: Axis) -> int {
        match axis {
            Axis::Horizontal => self.width,
            Axis::Vertical => self.height,
        }
    }

    /// The number of cells along the axis that the first part of a split
    /// receives: `percent` hundredths of `extent`, rounded down, and never more
    /// than `extent` itself.
    pub open spec fn first_share(extent: int, percent: int) -> int {
        if percent >= 100 {
            extent
        } else {
            extent * percent / 100
        }
    }

    /// The first part of the region when it is divided along `axis`.
    pub open spec fn split_first(self, axis: Axis, percent: int) -> Region {
        match axis {
            Axis::Horizontal => Region {
                width: Self::first_share(self.width, percent),
                ..self
            },
            Axis::Vertical => Region {
                height: Self::first_share(self.height, percent),
                ..self
            },
        }
    }

    /// The second part of the region when it is divided along `axis`: what
    /// the first part leaves.
    pub open spec fn split_second(self, axis: Axis, percent: int) -> Region {
        match axis {
            Axis::Horizontal => Region {
                x: self.x + Self::first_share(self.width, percent),
                width: self.width - Self::first_share(self.width, percent),
                ..self
            },
            Axis::Vertical => Region {
                y: self.y + Self::first_share(self.height, percent),
                height: self.height - Self::first_share(self.height, percent),
                ..self
            },
        }
    }
}

/// The share of the first part stays between nothing and the whole extent.
pub proof fn lemma_first_share_bounds(extent: int, percent: int)
    requires
        0 <= extent,
        0 <= percent,
    ensures
        0 <= Region::first_share(extent, percent) <= extent,
{
    if percent < 100 {
        assert(0 <= extent * percent <= extent * 100) by (nonlinear_arith)
            requires
                0 <= extent,
                0 <= percent < 100,
        ;
    }
}

/// The two parts of a split tile the region: every cell of the region lies in
/// exactly one of them, and no other cell lies in either.
pub proof fn lemma_split_tiles(region: Region, axis: Axis, percent: int, cx: int, cy: int)
    requires
        0 <= region.width,
        0 <= region.height,
        0 <= percent,
    ensures
        region.contains(cx, cy) <==> (region.split_first(axis, percent).contains(cx, cy)
            || region.split_second(axis, percent).contains(cx, cy)),
        !(region.split_first(axis, percent).contains(cx, cy) && region.split_second(
            axis,
            percent,
        ).contains(cx, cy)),
{
    lemma_first_share_bounds(region.width, percent);
    lemma_first_share_bounds(region.height, percent);
}

/// A rectangle of terminal cells whose right and bottom edges fit in `u16`.
#[derive(Clone, Copy, Debug, PartialEq, Eq, Structural)]
pub struct Rectangle {
    x: u16,
    y: u16,
    width: u16,
    height: u16,
}

impl View for Rectangle {
    type V = Region;

    closed spec fn view(&self) -> Region {
        Region {
            x: self.x as int,
            y: self.y as int,
            width: self.width as int,
            height: self.height as int,
        }
    }
}

impl Rectangle {
    #[verifier::type_invariant]
    spec fn edges_fit(self) -> bool {
        &&& self.x + self.width <= u16::MAX
        &&& self.y + self.height <= u16::MAX
    }

    /// What `new` keeps of a requested extent that starts at `origin`.
    pub open spec fn clamped(origin: u16, extent: u16) -> int {
        if origin + extent <= u16::MAX {
            extent as int
        } else {
            u16::MAX - origin
        }
    }

    /// A rectangle at `(x, y)`. Where the requested width or height would put
    /// the right or bottom edge beyond `u16::MAX`, it is cut off there.
    pub fn new(x: u16, y: u16, width: u16, height: u16) -> (r: Rectangle)
        ensures
            r@ == (Region {
                x: x as int,
                y: y as int,
                width: Self::clamped(x, width),
                height: Self::clamped(y, height),
            }),
    {
        let width: u16 = if width <= u16::MAX - x {
            width
        } else {
            u16::MAX - x
        };
        let height: u16 = if height <= u16::MAX - y {
            height
        } else {
            u16::MAX - y
        };
        Rectangle { x, y, width, height }
    }

    /// The column of the left edge.
    pub fn x(&self) -> (v: u16)
        ensures
            v == self@.x,
    {
        self.x
    }

    /// The row of the top edge.
    pub fn y(&self) -> (v: u16)
        ensures
            v == self@.y,
    {
        self.y
    }

    /// The number of columns.
    pub fn width(&self) -> (v: u16)
        ensures
            v == self@.width,
    {
        self.width
    }

    /// The number of rows.
    pub fn height(&self) -> (v: u16)
        ensures
            v == self@.height,
    {
        self.height
    }

    /// The number of cells.
    pub fn area(&self) -> (a: u32)
        ensures
            a == self@.area(),
    {
        assert(self.width * self.height <= 0xffff * 0xffff && (self.width == 0 || self.height == 0
            ==> self.width * self.height == 0)) by (nonlinear_arith)
            requires
                self.width <= 0xffff,
                self.height <= 0xffff,
        ;
        (self.width as u32) * (self.height as u32)
    }

    /// The corner and the sides of the model of a rectangle are values of
    /// `u16`; in particular no side is negative.
    pub proof fn lemma_view_bounds(self)
        ensures
            0 <= self@.x <= u16::MAX,
            0 <= self@.y <= u16::MAX,
            0 <= self@.width <= u16::MAX,
            0 <= self@.height <= u16::MAX,
    {
    }

    /// Two rectangles with the same model are the same rectangle.
    pub proof fn lemma_view_injective(a: Rectangle, b: Rectangle)
        requires
            a@ == b@,
        ensures
            a == b,
    {
    }

    /// The rectangle without `left` columns on the left, `right` columns on
    /// the right, `top` rows above and `bottom` rows below.
    pub fn inset(self, left: u16, top: u16, right: u16, bottom: u16) -> (inner: Rectangle)
        requires
            left + right <= self@.width,
            top + bottom <= self@.height,
        ensures
            inner@ == (Region {
                x: self@.x + left,
                y: self@.y + top,
                width: self@.width - left - right,
                height: self@.height - top - bottom,
            }),
    {
        proof {
            use_type_invariant(&self);
        }
        Rectangle {
            x: self.x + left,
            y: self.y + top,
            width: self.width - left - right,
            height: self.height - top - bottom,
        }
    }

    /// Divides the rectangle along `axis`. The first part takes `percent`
    /// hundredths of the extent along the axis, rounded down; the second part
    /// takes the rest. The extent across the axis is unchanged.
    pub fn split(self, axis: Axis, percent: u16) -> (parts: (Rectangle, Rectangle))
        ensures
            parts.0@ == self@.split_first(axis, percent as int),
            parts.1@ == self@.split_second(axis, percent as int),
    {
        proof {
            use_type_invariant(&self);
        }
        match axis {
            Axis::Horizontal => {
                let first: u16 = Self::share(self.width, percent);
                (
                    Rectangle { x: self.x, y: self.y, width: first, height: self.height },
                    Rectangle {
                        x: self.x + first,
                        y: self.y,
                        width: self.width - first,
                        height: self.height,
                    },
                )
            },
            Axis::Vertical => {
                let first: u16 = Self::share(self.height, percent);
                (
                    Rectangle { x: self.x, y: self.y, width: self.width, height: first },
                    Rectangle {
                        x: self.x,
                        y: self.y + first,
                        width: self.width,
                        height: self.height - first,
                    },
                )
            },
        }
    }

    fn share(extent: u16, percent: u16) -> (first: u16)
        ensures
            first == Region::first_share(extent as int, percent as int),
            first <= extent,
    {
        proof {
            lemma_first_share_bounds(extent as int, percent as int);
        }
        if percent >= 100 {
            extent
        } else {
            assert(extent * percent <= 0xffff * 100) by (nonlinear_arith)
                requires
                    extent <= 0xffff,
                    percent < 100,
            ;
            ((extent as u32) * (percent as u32) / 100) as u16
        }
    }
}

} // verus!
