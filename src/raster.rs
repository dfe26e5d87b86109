//! The pixel and image types that the pipeline works on.
use vstd::prelude::*;

verus! {

/// One pixel: red, green, blue and alpha, eight bits each.
#[derive(Clone, Copy, Debug, PartialEq, Eq, Structural)]
pub struct Rgba {
    pub r: u8,
    pub g: u8,
    pub b: u8,
    pub a: u8,
}

/// A `width` × `height` grid of RGBA pixels, stored row by row, four bytes per pixel.
#[derive(Debug)]
pub struct RgbaImage {
    pub width: u32,
    pub height: u32,
    pub data: Vec<u8>,
}

/// The pixel whose four channels start at byte `4 * i` of `d`.
pub open spec fn pixel_of(d: Seq<u8>, i: int) -> Rgba {
    Rgba { r: d[4 * i], g: d[4 * i + 1], b: d[4 * i + 2], a: d[4 * i + 3] }
}

/// The pixels of a row-major byte buffer, one for each group of four bytes.
pub open spec fn pixels_of(d: Seq<u8>) -> Seq<Rgba> {
    Seq::new((d.len() / 4) as nat, |i: int| pixel_of(d, i))
}

impl RgbaImage {
    /// The buffer holds exactly four bytes for each of the `width * height` pixels.
    pub open spec fn wf(&self) -> bool {
        self.data@.len() == 4 * ((self.width as int) * (self.height as int))
    }

    pub open spec fn pixel_count(&self) -> int {
        (self.width as int) * (self.height as int)
    }

    /// The pixels, row by row.
    pub open spec fn pixels(&self) -> Seq<Rgba> {
        pixels_of(self.data@)
    }

    /// An image over a buffer of `4 * width * height` bytes; `None` where the length differs.
    pub fn from_raw(width: u32, height: u32, data: Vec<u8>) -> (r: Option<RgbaImage>)
        ensures
            r matches Some(img) ==> img.width == width && img.height == height && img.data@
                == data@ && img.wf(),
            r is Some <==> data@.len() == 4 * ((width as int) * (height as int)),
    {
        proof {
            assert((width as int) * (height as int) <= 0xffff_ffff * 0xffff_ffff) by (nonlinear_arith)
                requires
                    width <= 0xffff_ffff,
                    height <= 0xffff_ffff,
            ;
            assert(0 <= (width as int) * (height as int)) by (nonlinear_arith);
        }
        let len: usize = data.len();
        let n: u64 = (width as u64) * (height as u64);
        if n > (usize::MAX / 4) as u64 {
            return None;
        }
        if len != (n as usize) * 4 {
            return None;
        }
        Some(RgbaImage { width, height, data })
    }

    /// A copy of the image.
    pub fn duplicate(&self) -> (r: RgbaImage)
        ensures
            r.width == self.width,
            r.height == self.height,
            r.data@ == self.data@,
    {
        RgbaImage { width: self.width, height: self.height, data: self.data.clone() }
    }

    /// The pixel at row-major position `i`.
    pub fn pixel_at(&self, i: usize) -> (r: Rgba)
        requires
            self.wf(),
            i < self.pixel_count(),
        ensures
            r == self.pixels()[i as int],
    {
        let len: usize = self.data.len();
        assert(4 * i + 3 < len);
        let j: usize = 4 * i;
        Rgba { r: self.data[j], g: self.data[j + 1], b: self.data[j + 2], a: self.data[j + 3] }
    }

    /// Overwrites the pixel at row-major position `i`.
    pub fn set_pixel_at(&mut self, i: usize, p: Rgba)
        requires
            old(self).wf(),
            i < old(self).pixel_count(),
        ensures
            final(self).wf(),
            final(self).width == old(self).width,
            final(self).height == old(self).height,
            final(self).pixels() == old(self).pixels().update(i as int, p),
    {
        let ghost before = self.data@;
        let len: usize = self.data.len();
        assert(4 * i + 3 < len);
        let j: usize = 4 * i;
        self.data.set(j, p.r);
        self.data.set(j + 1, p.g);
        self.data.set(j + 2, p.b);
        self.data.set(j + 3, p.a);
        proof {
            let after = self.data@;
            assert forall|k: int| 0 <= k < before.len() / 4 && k != i implies pixel_of(after, k)
                == pixel_of(before, k) by {
                assert(after[4 * k] == before[4 * k]);
                assert(after[4 * k + 1] == before[4 * k + 1]);
                assert(after[4 * k + 2] == before[4 * k + 2]);
                assert(after[4 * k + 3] == before[4 * k + 3]);
            }
            assert(self.pixels() =~= old(self).pixels().update(i as int, p));
        }
    }

    pub fn width(&self) -> (r: u32)
        ensures
            r == self.width,
    {
        self.width
    }

    pub fn height(&self) -> (r: u32)
        ensures
            r == self.height,
    {
        self.height
    }
}

} // verus!
