use vstd::prelude::*;

verus! {

/// Pixel coordinates stay below this, so pixel arithmetic never overflows
/// and pixel centers stay inside the world bounds.
pub const PIX_LIM: usize = 65536;

/// A pixel position inside a sprite image.
#[derive(Clone, Copy, Debug, PartialEq, Eq, Structural)]
pub struct PixelPos {
    pub x: usize,
    pub y: usize,
}

/// A size in whole pixels.
#[derive(Clone, Copy, Debug, PartialEq, Eq, Structural)]
pub struct PixelDims {
    pub w: usize,
    pub h: usize,
}

/// An inclusive axis-aligned pixel rectangle.
#[derive(Clone, Copy, Debug, PartialEq, Eq, Structural)]
pub struct BoundingBox {
    pub min: PixelPos,
    pub max: PixelPos,
}

pub open spec fn bb_wf(b: BoundingBox) -> bool {
    b.min.x <= b.max.x < PIX_LIM && b.min.y <= b.max.y < PIX_LIM
}

pub open spec fn bb_contains(b: BoundingBox, x: int, y: int) -> bool {
    b.min.x <= x <= b.max.x && b.min.y <= y <= b.max.y
}

pub open spec fn bb_intersects_spec(a: BoundingBox, b: BoundingBox) -> bool {
    a.min.x <= b.max.x && a.min.y <= b.max.y && b.min.x <= a.max.x && b.min.y <= a.max.y
}

impl BoundingBox {
    /// Whether two inclusive pixel rectangles share at least one pixel.
    pub fn intersects(&self, other: &BoundingBox) -> (r: bool)
        ensures
            r == bb_intersects_spec(*self, *other),
    {
        self.min.x <= other.max.x && self.min.y <= other.max.y && other.min.x <= self.max.x
            && other.min.y <= self.max.y
    }

    /// The center of the covered pixel area in fixed-point pixel units.
    pub fn center(&self) -> (r: crate::space::Vec2)
        requires
            bb_wf(*self),
        ensures
            r.x == 500 * (self.min.x + self.max.x + 1),
            r.y == 500 * (self.min.y + self.max.y + 1),
            crate::space::vec2_in_range(r),
    {
        crate::space::Vec2 {
            x: 500 * ((self.min.x + self.max.x) as i64 + 1),
            y: 500 * ((self.min.y + self.max.y) as i64 + 1),
        }
    }

    /// The covered width and height in pixels.
    pub fn size(&self) -> (r: PixelDims)
        requires
            bb_wf(*self),
        ensures
            r.w == self.max.x - self.min.x + 1,
            r.h == self.max.y - self.min.y + 1,
    {
        PixelDims { w: self.max.x - self.min.x + 1, h: self.max.y - self.min.y + 1 }
    }

    /// The smallest box covering both boxes.
    pub fn combine(self, other: BoundingBox) -> (r: BoundingBox)
        requires
            bb_wf(self),
            bb_wf(other),
        ensures
            bb_wf(r),
            forall|x: int, y: int|
                bb_contains(self, x, y) || bb_contains(other, x, y) ==> bb_contains(r, x, y),
            r.min.x == if self.min.x <= other.min.x { self.min.x } else { other.min.x },
            r.min.y == if self.min.y <= other.min.y { self.min.y } else { other.min.y },
            r.max.x == if self.max.x >= other.max.x { self.max.x } else { other.max.x },
            r.max.y == if self.max.y >= other.max.y { self.max.y } else { other.max.y },
    {
        BoundingBox {
            min: PixelPos {
                x: if self.min.x <= other.min.x {
                    self.min.x
                } else {
                    other.min.x
                },
                y: if self.min.y <= other.min.y {
                    self.min.y
                } else {
                    other.min.y
                },
            },
            max: PixelPos {
                x: if self.max.x >= other.max.x {
                    self.max.x
                } else {
                    other.max.x
                },
                y: if self.max.y >= other.max.y {
                    self.max.y
                } else {
                    other.max.y
                },
            },
        }
    }

    /// Grow the box to cover one more pixel.
    pub fn expand_to_fit(self, p: PixelPos) -> (r: BoundingBox)
        requires
            bb_wf(self),
            p.x < PIX_LIM,
            p.y < PIX_LIM,
        ensures
            bb_wf(r),
            bb_contains(r, p.x as int, p.y as int),
            forall|x: int, y: int| bb_contains(self, x, y) ==> bb_contains(r, x, y),
            r.min.x == if self.min.x <= p.x { self.min.x } else { p.x },
            r.min.y == if self.min.y <= p.y { self.min.y } else { p.y },
            r.max.x == if self.max.x >= p.x { self.max.x } else { p.x },
            r.max.y == if self.max.y >= p.y { self.max.y } else { p.y },
    {
        self.combine(BoundingBox { min: p, max: p })
    }
}

/// Two well-formed boxes intersect exactly when they share a pixel.
pub proof fn lemma_intersects_iff_common_pixel(a: BoundingBox, b: BoundingBox)
    requires
        bb_wf(a),
        bb_wf(b),
    ensures
        bb_intersects_spec(a, b) <==> exists|x: int, y: int|
            bb_contains(a, x, y) && bb_contains(b, x, y),
        bb_intersects_spec(a, b) == bb_intersects_spec(b, a),
{
    if bb_intersects_spec(a, b) {
        let x = if a.min.x >= b.min.x {
            a.min.x as int
        } else {
            b.min.x as int
        };
        let y = if a.min.y >= b.min.y {
            a.min.y as int
        } else {
            b.min.y as int
        };
        assert(bb_contains(a, x, y) && bb_contains(b, x, y));
    }
}

} // verus!
