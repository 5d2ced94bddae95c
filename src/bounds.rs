use vstd::prelude::*;

verus! {

/// An axis-aligned rectangle with unsigned integer coordinates.
#[derive(Clone, Copy, Debug, Default, PartialEq, Eq, Structural)]
pub struct Bounds {
    pub x: u32,
    pub y: u32,
    pub w: u32,
    pub h: u32,
}

/// A point: the top-left corner of a placed rectangle.
#[derive(Clone, Copy, Debug, Default, PartialEq, Eq, Structural)]
pub struct Position {
    pub x: u32,
    pub y: u32,
}

/// A width and a height.
#[derive(Clone, Copy, Debug, Default, PartialEq, Eq, Structural)]
pub struct Size {
    pub w: u32,
    pub h: u32,
}

impl Bounds {
    pub fn new(x: u32, y: u32, w: u32, h: u32) -> (r: Self)
        ensures
            r == (Bounds { x, y, w, h }),
    {
        Bounds { x, y, w, h }
    }

    /// The top-left corner, as `(x, y)`.
    pub fn position(&self) -> (r: (u32, u32))
        ensures
            r == (self.x, self.y),
    {
        (self.x, self.y)
    }

    /// The width and the height.
    pub fn size(&self) -> (r: Size)
        ensures
            r == (Size { w: self.w, h: self.h }),
    {
        Size::new(self.w, self.h)
    }

    /// The rectangle over mathematical integers.
    pub open spec fn rect(self) -> Rect {
        Rect { x: self.x as int, y: self.y as int, w: self.w as int, h: self.h as int }
    }

    /// The rectangle together with the trailing gutter that spacing adds on
    /// its right and below it.
    pub open spec fn cell(self, spacing: (u32, u32)) -> Rect {
        Rect {
            x: self.x as int,
            y: self.y as int,
            w: self.w + spacing.0,
            h: self.h + spacing.1,
        }
    }
}

/// A rectangle over mathematical integers, for stating geometry.
pub ghost struct Rect {
    pub x: int,
    pub y: int,
    pub w: int,
    pub h: int,
}

impl Rect {
    /// Right edge, exclusive.
    pub open spec fn right(self) -> int {
        self.x + self.w
    }

    /// Bottom edge, exclusive.
    pub open spec fn bottom(self) -> int {
        self.y + self.h
    }

    /// `self` lies within `o`.
    pub open spec fn inside(self, o: Rect) -> bool {
        &&& o.x <= self.x
        &&& self.right() <= o.right()
        &&& o.y <= self.y
        &&& self.bottom() <= o.bottom()
    }

    /// No unit square lies in both: one of them ends before the other
    /// starts along some axis.
    pub open spec fn apart(self, o: Rect) -> bool {
        ||| self.right() <= o.x
        ||| o.right() <= self.x
        ||| self.bottom() <= o.y
        ||| o.bottom() <= self.y
    }

    /// The two rectangles share at least one unit square.
    pub open spec fn intersects(self, o: Rect) -> bool {
        &&& self.x < o.right()
        &&& o.x < self.right()
        &&& self.y < o.bottom()
        &&& o.y < self.bottom()
    }
}

impl Position {
    pub fn new(x: u32, y: u32) -> (r: Self)
        ensures
            r == (Position { x, y }),
    {
        Position { x, y }
    }
}

impl Size {
    pub fn new(w: u32, h: u32) -> (r: Self)
        ensures
            r == (Size { w, h }),
    {
        Size { w, h }
    }
}

} // verus!
