use vstd::prelude::*;

use crate::registry::Point;

verus! {

/// Canvas units per pixel along each axis: points carry sub-pixel precision.
pub const UNITS_PER_PIXEL: u32 = 256;

/// The fixed-point value of lightness 1.0.
pub const LIGHTNESS_ONE: u32 = 1024;

/// Length of a direction's unit vector in fixed point.
pub const UNIT_VECTOR_LENGTH: i32 = 16384;

/// A full turn in binary angle units.
pub const FULL_TURN: u32 = 65536;

/// A flow direction: its binary angle (a full turn is `FULL_TURN`) and its
/// unit vector scaled to `UNIT_VECTOR_LENGTH`.
#[derive(Clone, Copy, Debug, PartialEq, Eq, Structural)]
pub struct Direction {
    pub angle: u16,
    pub ux: i32,
    pub uy: i32,
}

impl Direction {
    pub open spec fn wf(&self) -> bool {
        &&& -UNIT_VECTOR_LENGTH <= self.ux <= UNIT_VECTOR_LENGTH
        &&& -UNIT_VECTOR_LENGTH <= self.uy <= UNIT_VECTOR_LENGTH
    }
}

/// What the field stores for one pixel. A `None` scalar means that no
/// geometric data is known for it; the three scalars are independent.
#[derive(Clone, Copy, Debug, PartialEq, Eq)]
pub struct PixelProperties {
    pub lightness: Option<u32>,
    pub direction: Option<Direction>,
    pub depth: Option<u32>,
    /// Background color: hue, saturation and lightness as fractions of 65535.
    pub bg_hsl: (u16, u16, u16),
    pub is_shaded: bool,
    pub is_hatched: bool,
}

/// A pixel whose lightness, direction and depth are all known.
#[derive(Clone, Copy, Debug, PartialEq, Eq)]
pub struct PixelValue {
    pub lightness: u32,
    pub direction: Direction,
    pub depth: u32,
    pub bg_hsl: (u16, u16, u16),
    pub is_shaded: bool,
    pub is_hatched: bool,
}

impl PixelProperties {
    pub open spec fn wf(&self) -> bool {
        &&& (self.lightness matches Some(l) ==> l <= LIGHTNESS_ONE)
        &&& (self.direction matches Some(d) ==> d.wf())
    }

    /// The pixel's data when all three scalars are known.
    pub open spec fn spec_value(&self) -> Option<PixelValue> {
        match (self.lightness, self.direction, self.depth) {
            (Some(lightness), Some(direction), Some(depth)) => Some(
                PixelValue {
                    lightness,
                    direction,
                    depth,
                    bg_hsl: self.bg_hsl,
                    is_shaded: self.is_shaded,
                    is_hatched: self.is_hatched,
                },
            ),
            _ => None,
        }
    }

    /// A pixel without scene data.
    pub fn empty() -> (r: PixelProperties)
        ensures
            r.wf(),
            r.lightness is None,
            r.direction is None,
            r.depth is None,
            r.spec_value() is None,
    {
        PixelProperties {
            lightness: None,
            direction: None,
            depth: None,
            bg_hsl: (0, 0, 0),
            is_shaded: false,
            is_hatched: false,
        }
    }

    /// Whether the stored values lie in their fixed-point ranges.
    pub fn is_valid(&self) -> (r: bool)
        ensures
            r == self.wf(),
    {
        let lightness_ok = match self.lightness {
            Some(l) => l <= LIGHTNESS_ONE,
            None => true,
        };
        let direction_ok = match self.direction {
            Some(d) => -UNIT_VECTOR_LENGTH <= d.ux && d.ux <= UNIT_VECTOR_LENGTH && -UNIT_VECTOR_LENGTH <= d.uy
                && d.uy <= UNIT_VECTOR_LENGTH,
            None => true,
        };
        lightness_ok && direction_ok
    }
}

/// A dense `width` x `height` array of pixel properties.
pub struct PixelPropertyCanvas {
    width: u32,
    height: u32,
    data: Vec<PixelProperties>,
}

impl PixelPropertyCanvas {
    pub closed spec fn spec_width(&self) -> int {
        self.width as int
    }

    pub closed spec fn spec_height(&self) -> int {
        self.height as int
    }

    /// The stored pixels, row by row.
    pub closed spec fn pixels(&self) -> Seq<PixelProperties> {
        self.data@
    }

    pub open spec fn wf(&self) -> bool {
        &&& self.pixels().len() == self.spec_width() * self.spec_height()
        &&& self.spec_width() * UNITS_PER_PIXEL <= i32::MAX
        &&& self.spec_height() * UNITS_PER_PIXEL <= i32::MAX
        &&& forall|i: int| 0 <= i < self.pixels().len() ==> (#[trigger] self.pixels()[i]).wf()
    }

    /// Width of the canvas in canvas units.
    pub open spec fn extent_x(&self) -> int {
        self.spec_width() * UNITS_PER_PIXEL
    }

    /// Height of the canvas in canvas units.
    pub open spec fn extent_y(&self) -> int {
        self.spec_height() * UNITS_PER_PIXEL
    }

    pub open spec fn contains(&self, x: int, y: int) -> bool {
        0 <= x < self.extent_x() && 0 <= y < self.extent_y()
    }

    /// The data at canvas position `(x, y)`: that of the pixel it floors to,
    /// or none outside the canvas or where a scalar is unknown.
    pub open spec fn value_at(&self, x: int, y: int) -> Option<PixelValue> {
        if self.contains(x, y) {
            self.pixels()[(y / UNITS_PER_PIXEL as int) * self.spec_width() + x / UNITS_PER_PIXEL as int].spec_value()
        } else {
            None
        }
    }

    /// A canvas with no scene data anywhere.
    pub fn new(width: u32, height: u32) -> (r: PixelPropertyCanvas)
        requires
            width * UNITS_PER_PIXEL <= i32::MAX,
            height * UNITS_PER_PIXEL <= i32::MAX,
        ensures
            r.wf(),
            r.spec_width() == width,
            r.spec_height() == height,
            forall|i: int| 0 <= i < r.pixels().len() ==> (#[trigger] r.pixels()[i]).spec_value() is None,
    {
        assert((width as int) * (height as int) <= 0x1_0000_0000_0000) by (nonlinear_arith)
            requires
                width <= 0x80_0000,
                height <= 0x80_0000,
        ;
        let n: u64 = (width as u64) * (height as u64);
        let mut data: Vec<PixelProperties> = Vec::new();
        let mut i: u64 = 0;
        while i < n
            invariant
                i <= n,
                data@.len() == i,
                forall|k: int| 0 <= k < i ==> (#[trigger] data@[k]).spec_value() is None && data@[k].wf(),
            decreases n - i,
        {
            data.push(PixelProperties::empty());
            i = i + 1;
        }
        PixelPropertyCanvas { width, height, data }
    }

    /// A canvas over `data`, given row by row; none if the length does not
    /// match or a value lies outside its range.
    pub fn from_pixels(width: u32, height: u32, data: Vec<PixelProperties>) -> (r: Option<PixelPropertyCanvas>)
        ensures
            r is Some <==> (data@.len() == width * height && width * UNITS_PER_PIXEL <= i32::MAX && height
                * UNITS_PER_PIXEL <= i32::MAX && forall|i: int| 0 <= i < data@.len() ==> (#[trigger] data@[i]).wf()),
            r matches Some(c) ==> c.wf() && c.spec_width() == width && c.spec_height() == height && c.pixels()
                == data@,
    {
        if width > 8388607 || height > 8388607 {
            return None;
        }
        assert((width as int) * (height as int) <= 0x1_0000_0000_0000) by (nonlinear_arith)
            requires
                width <= 0x80_0000,
                height <= 0x80_0000,
        ;
        if data.len() as u64 != (width as u64) * (height as u64) {
            return None;
        }
        let mut i: usize = 0;
        while i < data.len()
            invariant
                i <= data@.len(),
                forall|k: int| 0 <= k < i ==> (#[trigger] data@[k]).wf(),
            decreases data@.len() - i,
        {
            if !data[i].is_valid() {
                return None;
            }
            i = i + 1;
        }
        Some(PixelPropertyCanvas { width, height, data })
    }

    pub fn width(&self) -> (r: u32)
        ensures
            r == self.spec_width(),
    {
        self.width
    }

    pub fn height(&self) -> (r: u32)
        ensures
            r == self.spec_height(),
    {
        self.height
    }

    /// Replaces the properties of pixel `(x, y)`.
    pub fn set_pixel(&mut self, x: u32, y: u32, props: PixelProperties)
        requires
            old(self).wf(),
            x < old(self).spec_width(),
            y < old(self).spec_height(),
            props.wf(),
        ensures
            final(self).wf(),
            final(self).spec_width() == old(self).spec_width(),
            final(self).spec_height() == old(self).spec_height(),
            final(self).pixels() == old(self).pixels().update(y * old(self).spec_width() + x, props),
    {
        let idx = self.pixel_index(x, y);
        self.data.set(idx, props);
        proof {
            assert forall|i: int| 0 <= i < self.pixels().len() implies (#[trigger] self.pixels()[i]).wf() by {
                if i != idx {
                    assert(self.pixels()[i] == old(self).pixels()[i]);
                }
            }
        }
    }

    fn pixel_index(&self, x: u32, y: u32) -> (r: usize)
        requires
            self.wf(),
            x < self.spec_width(),
            y < self.spec_height(),
        ensures
            r == y * self.spec_width() + x,
            r < self.pixels().len(),
    {
        let len = self.data.len();
        assert(0 <= (y as int) * (self.width as int) + (x as int) < len) by (nonlinear_arith)
            requires
                x < self.width,
                y < self.height,
                len == self.width * self.height,
        {
            assert((y as int) * (self.width as int) + (self.width as int) == (y as int + 1) * (self.width as int));
            assert((y as int + 1) * (self.width as int) <= (self.height as int) * (self.width as int));
        }
        (y as usize) * (self.width as usize) + (x as usize)
    }

    /// The data at canvas position `p`: none outside the canvas or where the
    /// pixel lacks lightness, direction or depth.
    pub fn pixel_value(&self, p: &Point) -> (r: Option<PixelValue>)
        requires
            self.wf(),
        ensures
            r == self.value_at(p.x as int, p.y as int),
            r matches Some(v) ==> v.lightness <= LIGHTNESS_ONE && v.direction.wf(),
    {
        if p.x < 0 || p.y < 0 || p.x as u32 >= self.width * UNITS_PER_PIXEL || p.y as u32 >= self.height
            * UNITS_PER_PIXEL {
            return None;
        }
        let px = (p.x as u32) / UNITS_PER_PIXEL;
        let py = (p.y as u32) / UNITS_PER_PIXEL;
        proof {
            vstd::arithmetic::div_mod::lemma_div_is_ordered(p.x as int, self.width * UNITS_PER_PIXEL - 1, UNITS_PER_PIXEL as int);
            vstd::arithmetic::div_mod::lemma_div_is_ordered(p.y as int, self.height * UNITS_PER_PIXEL - 1, UNITS_PER_PIXEL as int);
            assert((self.width * UNITS_PER_PIXEL - 1) / UNITS_PER_PIXEL as int == self.width - 1);
            assert((self.height * UNITS_PER_PIXEL - 1) / UNITS_PER_PIXEL as int == self.height - 1);
        }
        let idx = self.pixel_index(px, py);
        let pixel = self.data[idx];
        proof {
            assert(self.pixels()[idx as int].wf());
        }
        match (pixel.lightness, pixel.direction, pixel.depth) {
            (Some(lightness), Some(direction), Some(depth)) => Some(
                PixelValue {
                    lightness,
                    direction,
                    depth,
                    bg_hsl: pixel.bg_hsl,
                    is_shaded: pixel.is_shaded,
                    is_hatched: pixel.is_hatched,
                },
            ),
            _ => None,
        }
    }
}

} // verus!
