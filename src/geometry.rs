use vstd::prelude::*;

verus! {

/// A width and height in pixels.
#[derive(Clone, Copy, Debug, PartialEq, Eq, Structural)]
pub struct Resolution {
    pub width: u32,
    pub height: u32,
}

impl Resolution {
    /// Both dimensions are strictly positive.
    pub open spec fn valid(self) -> bool {
        self.width > 0 && self.height > 0
    }
}

/// A face box as a detector reports it: it may lie partly or wholly outside
/// the raster it was found on.
#[derive(Clone, Copy, Debug, PartialEq, Eq, Structural)]
pub struct BoundingBox {
    pub x: i32,
    pub y: i32,
    pub width: u32,
    pub height: u32,
}

/// A rectangle that lies within some raster; it may be empty.
#[derive(Clone, Copy, Debug, PartialEq, Eq, Structural)]
pub struct Region {
    pub x: u32,
    pub y: u32,
    pub width: u32,
    pub height: u32,
}

impl Region {
    /// The region lies inside a raster of `width` × `height` pixels.
    pub open spec fn within(self, width: nat, height: nat) -> bool {
        self.x + self.width <= width && self.y + self.height <= height
    }

    pub open spec fn contains(self, x: int, y: int) -> bool {
        self.x <= x < self.x + self.width && self.y <= y < self.y + self.height
    }
}

/// `v` limited to `0..=hi`.
pub open spec fn clamp_to(v: int, hi: int) -> int {
    if v < 0 {
        0
    } else if v > hi {
        hi
    } else {
        v
    }
}

/// The part of `b` that lies inside a raster of `width` × `height` pixels.
pub open spec fn clamped(b: BoundingBox, width: nat, height: nat) -> Region {
    let x0 = clamp_to(b.x as int, width as int);
    let x1 = clamp_to(b.x + b.width, width as int);
    let y0 = clamp_to(b.y as int, height as int);
    let y1 = clamp_to(b.y + b.height, height as int);
    Region {
        x: x0 as u32,
        y: y0 as u32,
        width: (if x1 > x0 { x1 - x0 } else { 0 }) as u32,
        height: (if y1 > y0 { y1 - y0 } else { 0 }) as u32,
    }
}

/// Two boxes share no pixel.
pub open spec fn boxes_disjoint(a: BoundingBox, b: BoundingBox) -> bool {
    a.x + a.width <= b.x || b.x + b.width <= a.x || a.y + a.height <= b.y || b.y
        + b.height <= a.y
}

fn clamp_coord(v: i64, hi: u32) -> (r: u32)
    ensures
        r == clamp_to(v as int, hi as int),
{
    if v < 0 {
        0
    } else if v > hi as i64 {
        hi
    } else {
        v as u32
    }
}

/// Clamps a detector box to a raster of `width` × `height` pixels. The pixels
/// of the result are exactly the pixels of the box that lie in the raster.
pub fn clamp_box(b: BoundingBox, width: u32, height: u32) -> (r: Region)
    ensures
        r == clamped(b, width as nat, height as nat),
        r.within(width as nat, height as nat),
        forall|x: int, y: int|
            #![trigger r.contains(x, y)]
            r.contains(x, y) <==> (0 <= x < width && 0 <= y < height && b.x <= x < b.x + b.width
                && b.y <= y < b.y + b.height),
{
    let x0 = clamp_coord(b.x as i64, width);
    let x1 = clamp_coord(b.x as i64 + b.width as i64, width);
    let y0 = clamp_coord(b.y as i64, height);
    let y1 = clamp_coord(b.y as i64 + b.height as i64, height);
    Region {
        x: x0,
        y: y0,
        width: if x1 > x0 { x1 - x0 } else { 0 },
        height: if y1 > y0 { y1 - y0 } else { 0 },
    }
}

} // verus!
