//! A very basic image type for the automatic decoders.
use vstd::prelude::*;

verus! {

/// A basic container for pixel data.
///
/// * The `pixels` vec should hold `width * height` pixels, row by row.
/// * The struct takes no opinion on if the first row is the top or bottom of
///   the image.
#[derive(Debug, Clone, Default)]
pub struct Image<P> {
    /// Image width (in pixels).
    pub width: u32,
    /// Image height (in pixels).
    pub height: u32,
    /// Image pixel data.
    pub pixels: Vec<P>,
}

/// Whether `(x, y)` lies inside the declared dimensions.
pub open spec fn in_bounds(x: u32, y: u32, width: u32, height: u32) -> bool {
    x < width && y < height
}

/// The accessors of [Image] compute `y * width + x` without wrapping, so the
/// image's declared size must keep in-bounds positions within `u32`.
pub open spec fn index_fits(x: u32, y: u32, width: u32, height: u32) -> bool {
    in_bounds(x, y, width, height) ==> y as int * width as int + x as int <= u32::MAX
}

impl<P> Image<P> {
    /// Converts an `x` and `y` to an index into the `pixels` vec:
    /// `index = y * width + x`. Does not perform bounds checks.
    pub fn xy_to_index(&self, x: u32, y: u32) -> (i: usize)
        requires
            y as int * self.width as int + x as int <= u32::MAX,
        ensures
            i as int == y as int * self.width as int + x as int,
    {
        assert(y * self.width <= u32::MAX) by (nonlinear_arith)
            requires
                y as int * self.width as int + x as int <= u32::MAX,
                0 <= x,
        ;
        ((y * self.width) + x) as usize
    }

    /// Gets a shared reference to the specified pixel; `None` when `x` or `y`
    /// is out of bounds or the buffer is too short.
    pub fn get(&self, x: u32, y: u32) -> (r: Option<&P>)
        requires
            index_fits(x, y, self.width, self.height),
        ensures
            r is Some <==> in_bounds(x, y, self.width, self.height) && (y as int * self.width as int + x as int)
                < self.pixels@.len(),
            r matches Some(p) ==> *p == self.pixels@[y as int * self.width as int + x as int],
    {
        if x >= self.width {
            return None;
        }
        if y >= self.height {
            return None;
        }
        let i = self.xy_to_index(x, y);
        if i < self.pixels.len() {
            Some(&self.pixels[i])
        } else {
            None
        }
    }

    /// Gets a unique reference to the specified pixel; `None` when `x` or `y`
    /// is out of bounds or the buffer is too short.
    pub fn get_mut(&mut self, x: u32, y: u32) -> (r: Option<&mut P>)
        requires
            index_fits(x, y, old(self).width, old(self).height),
        ensures
            r is Some <==> in_bounds(x, y, old(self).width, old(self).height) && (y as int * old(self).width as int
                + x as int) < old(self).pixels@.len(),
            r matches Some(p) ==> {
                &&& *p == old(self).pixels@[y as int * old(self).width as int + x as int]
                &&& final(self).pixels@ == old(self).pixels@.update(
                    y as int * old(self).width as int + x as int,
                    *final(p),
                )
                &&& final(self).width == old(self).width
                &&& final(self).height == old(self).height
            },
            r is None ==> *final(self) == *old(self),
    {
        if x >= self.width {
            return None;
        }
        if y >= self.height {
            return None;
        }
        let i = self.xy_to_index(x, y);
        if i < self.pixels.len() {
            Some(&mut self.pixels[i])
        } else {
            None
        }
    }
    /// The pixel at `(x, y)`, which must lie inside the image, keep
    /// `y * width + x` within `u32`, and be in the buffer.
    pub fn index(&self, xy: (u32, u32)) -> (p: &P)
        requires
            in_bounds(xy.0, xy.1, self.width, self.height),
            index_fits(xy.0, xy.1, self.width, self.height),
            (xy.1 as int * self.width as int + xy.0 as int) < self.pixels@.len(),
        ensures
            *p == self.pixels@[xy.1 as int * self.width as int + xy.0 as int],
    {
        let i = self.xy_to_index(xy.0, xy.1);
        &self.pixels[i]
    }

    /// A unique reference to the pixel at `(x, y)`, under the conditions of
    /// `index`.
    pub fn index_mut(&mut self, xy: (u32, u32)) -> (p: &mut P)
        requires
            in_bounds(xy.0, xy.1, old(self).width, old(self).height),
            index_fits(xy.0, xy.1, old(self).width, old(self).height),
            (xy.1 as int * old(self).width as int + xy.0 as int) < old(self).pixels@.len(),
        ensures
            *p == old(self).pixels@[xy.1 as int * old(self).width as int + xy.0 as int],
            final(self).pixels@ == old(self).pixels@.update(
                xy.1 as int * old(self).width as int + xy.0 as int,
                *final(p),
            ),
            final(self).width == old(self).width,
            final(self).height == old(self).height,
    {
        let i = self.xy_to_index(xy.0, xy.1);
        &mut self.pixels[i]
    }
}

} // verus!
