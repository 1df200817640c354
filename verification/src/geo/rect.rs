use vstd::prelude::*;
use crate::geo::point::Point;
use crate::geo::point::fits;

verus! {

/// A cardinal direction.
#[derive(Copy, Clone, Debug, PartialEq, Eq, Structural)]
pub enum Cardinal {
    NW,
    NE,
    SE,
    SW,
}

impl Cardinal {
    /// Whether the direction points to the eastern half.
    pub open spec fn east(self) -> bool {
        self == Cardinal::NE || self == Cardinal::SE
    }

    /// Whether the direction points to the northern half.
    pub open spec fn north(self) -> bool {
        self == Cardinal::NW || self == Cardinal::NE
    }
}

/// A struct representing a rectangular plane in a Cartesian coordinate system.
/// X and y co-ordinates specify the *center* of the rectangle.
///
/// Its western edge lies half the width (rounded down) to the left of the
/// center, its eastern edge a full width to the right of the western one;
/// likewise for the southern and northern edges. The rectangle *contains* the
/// points strictly between its edges, and *covers* those and the points on
/// its western and southern edges, so that rectangles side by side cover
/// every point between them once.
#[derive(Copy, Clone, Debug, PartialEq, Eq, Structural)]
pub struct Rect {
    pub x: i32,
    pub y: i32,
    pub width: i32,
    pub height: i32,
}

impl Rect {
    /// The x co-ordinate of the western edge.
    pub open spec fn left(self) -> int {
        self.x - self.width / 2
    }

    /// The x co-ordinate of the eastern edge.
    pub open spec fn right(self) -> int {
        self.left() + self.width
    }

    /// The y co-ordinate of the southern edge.
    pub open spec fn bottom(self) -> int {
        self.y - self.height / 2
    }

    /// The y co-ordinate of the northern edge.
    pub open spec fn top(self) -> int {
        self.bottom() + self.height
    }

    /// A rectangle is well formed when it has a positive extent on both axes
    /// and its edges are representable co-ordinates.
    pub open spec fn wf(self) -> bool {
        &&& self.width > 0
        &&& self.height > 0
        &&& fits(self.left())
        &&& fits(self.right())
        &&& fits(self.bottom())
        &&& fits(self.top())
    }

    /// A rectangle can be split while both halves of each axis keep a
    /// positive extent.
    pub open spec fn splittable(self) -> bool {
        self.width >= 2 && self.height >= 2
    }

    /// Whether `p` lies strictly inside the rectangle.
    pub open spec fn contains_spec(self, p: Point) -> bool {
        &&& self.left() < p.x < self.right()
        &&& self.bottom() < p.y < self.top()
    }

    /// Whether `p` lies inside the rectangle or on its western or southern
    /// edge.
    pub open spec fn covers_spec(self, p: Point) -> bool {
        &&& self.left() <= p.x < self.right()
        &&& self.bottom() <= p.y < self.top()
    }

    /// The center of the rectangle.
    pub open spec fn center_spec(self) -> Point {
        Point { x: self.x, y: self.y }
    }

    /// The given corner of the rectangle.
    pub open spec fn corner_spec(self, corner: Cardinal) -> Point {
        Point {
            x: (if corner.east() {
                self.right()
            } else {
                self.left()
            }) as i32,
            y: (if corner.north() {
                self.top()
            } else {
                self.bottom()
            }) as i32,
        }
    }

    /// The quadrant between the center and the given corner: the rectangle
    /// whose edges are the center lines of `self` and the two edges of `self`
    /// that meet in that corner.
    pub open spec fn split_spec(self, c: Cardinal) -> Rect {
        let width = if c.east() {
            self.width - self.width / 2
        } else {
            self.width / 2
        };
        let height = if c.north() {
            self.height - self.height / 2
        } else {
            self.height / 2
        };
        let west = if c.east() {
            self.x as int
        } else {
            self.left()
        };
        let south = if c.north() {
            self.y as int
        } else {
            self.bottom()
        };
        Rect {
            x: (west + width / 2) as i32,
            y: (south + height / 2) as i32,
            width: width as i32,
            height: height as i32,
        }
    }

    /// The quadrant on whose side of the two center lines a point lies. The
    /// lines themselves belong to the east and to the north.
    pub open spec fn quadrant_of(self, p: Point) -> Cardinal {
        if p.x >= self.x {
            if p.y >= self.y {
                Cardinal::NE
            } else {
                Cardinal::SE
            }
        } else {
            if p.y >= self.y {
                Cardinal::NW
            } else {
                Cardinal::SW
            }
        }
    }

    pub fn new(x: i32, y: i32, width: i32, height: i32) -> (r: Self)
        ensures
            r == (Rect { x, y, width, height }),
    {
        Self { x, y, width, height }
    }

    /// Whether the rectangle is well formed.
    pub fn is_wf(&self) -> (b: bool)
        ensures
            b == self.wf(),
    {
        if self.width <= 0 || self.height <= 0 {
            return false;
        }
        let left: i64 = self.x as i64 - self.half_width() as i64;
        let right: i64 = left + self.width as i64;
        let bottom: i64 = self.y as i64 - self.half_height() as i64;
        let top: i64 = bottom + self.height as i64;
        left >= -0x8000_0000 && right <= 0x7fff_ffff && bottom >= -0x8000_0000 && top
            <= 0x7fff_ffff
    }

    pub fn contains(&self, p: &Point) -> (b: bool)
        ensures
            b == self.contains_spec(*p),
    {
        let left: i64 = self.x as i64 - self.half_width() as i64;
        let right: i64 = left + self.width as i64;
        let bottom: i64 = self.y as i64 - self.half_height() as i64;
        let top: i64 = bottom + self.height as i64;
        let px: i64 = p.x as i64;
        let py: i64 = p.y as i64;
        px > left && px < right && py < top && py > bottom
    }

    /// Whether `p` lies inside the rectangle or on its western or southern
    /// edge.
    pub fn covers(&self, p: &Point) -> (b: bool)
        ensures
            b == self.covers_spec(*p),
    {
        let left: i64 = self.x as i64 - self.half_width() as i64;
        let right: i64 = left + self.width as i64;
        let bottom: i64 = self.y as i64 - self.half_height() as i64;
        let top: i64 = bottom + self.height as i64;
        let px: i64 = p.x as i64;
        let py: i64 = p.y as i64;
        px >= left && px < right && py < top && py >= bottom
    }

    /// Return a [`Point`] at the center of the rectangle.
    pub fn center(&self) -> (p: Point)
        ensures
            p == self.center_spec(),
    {
        Point::new(self.x, self.y)
    }

    /// Return a [`Point`] representing the specified corner of the rectangle.
    pub fn corner(&self, corner: Cardinal) -> (p: Point)
        requires
            self.wf(),
        ensures
            p == self.corner_spec(corner),
    {
        let left: i32 = self.x - self.half_width();
        let right: i32 = (left as i64 + self.width as i64) as i32;
        let bottom: i32 = self.y - self.half_height();
        let top: i32 = (bottom as i64 + self.height as i64) as i32;
        match corner {
            Cardinal::NW => Point::new(left, top),
            Cardinal::NE => Point::new(right, top),
            Cardinal::SE => Point::new(right, bottom),
            Cardinal::SW => Point::new(left, bottom),
        }
    }

    /// Return a [`Rect`] covering the area from the center to the specified corner.
    pub fn split_rect(&self, c: Cardinal) -> (r: Self)
        requires
            self.wf(),
            self.splittable(),
        ensures
            r == self.split_spec(c),
            r.wf(),
            r.width < self.width,
            r.height < self.height,
    {
        let west_w: i32 = self.half_width();
        let east_w: i32 = self.width - west_w;
        let south_h: i32 = self.half_height();
        let north_h: i32 = self.height - south_h;
        let left: i32 = self.x - west_w;
        let bottom: i32 = self.y - south_h;
        match c {
            Cardinal::NW => Self::new(left + west_w / 2, self.y + north_h / 2, west_w, north_h),
            Cardinal::NE => Self::new(self.x + east_w / 2, self.y + north_h / 2, east_w, north_h),
            Cardinal::SE => Self::new(self.x + east_w / 2, bottom + south_h / 2, east_w, south_h),
            Cardinal::SW => Self::new(left + west_w / 2, bottom + south_h / 2, west_w, south_h),
        }
    }

    pub fn width(&self) -> (w: i32)
        ensures
            w == self.width,
    {
        self.width
    }

    pub fn height(&self) -> (h: i32)
        ensures
            h == self.height,
    {
        self.height
    }

    fn half_width(&self) -> (h: i32)
        ensures
            self.width >= 0 ==> h == self.width / 2,
    {
        self.width / 2
    }

    fn half_height(&self) -> (h: i32)
        ensures
            self.height >= 0 ==> h == self.height / 2,
    {
        self.height / 2
    }
}

/// The edges of a quadrant are the center lines of the parent and the two
/// edges of the parent that meet in the quadrant's corner.
pub proof fn lemma_split_edges(r: Rect, c: Cardinal)
    requires
        r.wf(),
        r.splittable(),
    ensures
        r.split_spec(c).wf(),
        r.split_spec(c).left() == (if c.east() {
            r.x as int
        } else {
            r.left()
        }),
        r.split_spec(c).right() == (if c.east() {
            r.right()
        } else {
            r.x as int
        }),
        r.split_spec(c).bottom() == (if c.north() {
            r.y as int
        } else {
            r.bottom()
        }),
        r.split_spec(c).top() == (if c.north() {
            r.top()
        } else {
            r.y as int
        }),
{
}

/// The two halves of each axis add up to the parent's extent, and differ by
/// at most one co-ordinate step.
pub proof fn lemma_split_extents(r: Rect)
    requires
        r.wf(),
        r.splittable(),
    ensures
        r.split_spec(Cardinal::NW).width + r.split_spec(Cardinal::NE).width == r.width,
        r.split_spec(Cardinal::SW).height + r.split_spec(Cardinal::NW).height == r.height,
        forall|c: Cardinal|
            r.width / 2 <= (#[trigger] r.split_spec(c)).width <= r.width / 2 + 1
                && r.height / 2 <= r.split_spec(c).height <= r.height / 2 + 1,
        (r.width % 2 == 0 && r.height % 2 == 0) ==> forall|c: Cardinal|
            (#[trigger] r.split_spec(c)).width == r.width / 2 && r.split_spec(c).height
                == r.height / 2,
{
}

/// A point that a quadrant contains lies inside the parent, off its center
/// lines and on the quadrant's side of them.
pub proof fn lemma_quadrant_inside(r: Rect, c: Cardinal, p: Point)
    requires
        r.wf(),
        r.splittable(),
        r.split_spec(c).contains_spec(p),
    ensures
        r.contains_spec(p),
        p.x != r.x,
        p.y != r.y,
        c == r.quadrant_of(p),
{
    lemma_split_edges(r, c);
}

/// No two quadrants of a rectangle contain the same point.
pub proof fn lemma_quadrants_disjoint(r: Rect, c1: Cardinal, c2: Cardinal, p: Point)
    requires
        r.wf(),
        r.splittable(),
        c1 != c2,
    ensures
        !(r.split_spec(c1).contains_spec(p) && r.split_spec(c2).contains_spec(p)),
        !(r.split_spec(c1).covers_spec(p) && r.split_spec(c2).covers_spec(p)),
{
    lemma_split_edges(r, c1);
    lemma_split_edges(r, c2);
}

/// Every point strictly inside a rectangle and off its two center lines is
/// contained in exactly one of the four quadrants.
pub proof fn lemma_quadrants_partition(r: Rect, p: Point)
    requires
        r.wf(),
        r.splittable(),
        r.contains_spec(p),
        p.x != r.x,
        p.y != r.y,
    ensures
        r.split_spec(r.quadrant_of(p)).contains_spec(p),
        forall|c: Cardinal| #[trigger]
            r.split_spec(c).contains_spec(p) ==> c == r.quadrant_of(p),
{
    lemma_split_edges(r, r.quadrant_of(p));
    assert forall|c: Cardinal| #[trigger] r.split_spec(c).contains_spec(p) implies c
        == r.quadrant_of(p) by {
        lemma_quadrant_inside(r, c, p);
    }
}

/// A point strictly inside a rectangle is contained in no quadrant exactly
/// when it lies on one of the two center lines.
pub proof fn lemma_center_lines_uncontained(r: Rect, p: Point)
    requires
        r.wf(),
        r.splittable(),
        r.contains_spec(p),
    ensures
        (p.x == r.x || p.y == r.y) <==> forall|c: Cardinal|
            !(#[trigger] r.split_spec(c)).contains_spec(p),
{
    if p.x == r.x || p.y == r.y {
        assert forall|c: Cardinal| !(#[trigger] r.split_spec(c)).contains_spec(p) by {
            if r.split_spec(c).contains_spec(p) {
                lemma_quadrant_inside(r, c, p);
            }
        }
    } else {
        lemma_quadrants_partition(r, p);
    }
}

/// The quadrants cover what the rectangle covers, each point once: a point
/// that the rectangle covers, and so every point strictly inside it, is
/// covered by exactly one of the four quadrants, and a point that a quadrant
/// covers is covered by the rectangle.
pub proof fn lemma_quadrants_cover(r: Rect, p: Point)
    requires
        r.wf(),
        r.splittable(),
    ensures
        r.contains_spec(p) ==> r.covers_spec(p),
        r.covers_spec(p) ==> r.split_spec(r.quadrant_of(p)).covers_spec(p),
        forall|c: Cardinal| #[trigger]
            r.split_spec(c).covers_spec(p) ==> r.covers_spec(p) && c == r.quadrant_of(p),
{
    lemma_split_edges(r, r.quadrant_of(p));
    assert forall|c: Cardinal| #[trigger] r.split_spec(c).covers_spec(p) implies r.covers_spec(p)
        && c == r.quadrant_of(p) by {
        lemma_split_edges(r, c);
    }
}

} // verus!
