//! A raw image surface for the standalone terrain visualization: a dense
//! RGBA byte buffer with a bounds-tolerant single-pixel write.
//!
//! The surface models a `Rgba8Unorm` texture: four bytes per pixel, pixel
//! `(x, y)` at byte offset `(x + y * width) * 4`, rows from the top. A
//! write outside the surface is ignored, as the rendering collaborator's
//! `put_pixel` semantics ask; any other texture format is a configuration
//! mismatch that the caller must rule out before building the surface.

use vstd::prelude::*;

use crate::grid::lemma_linear_index_bounds;
use crate::grid::lemma_linear_index_injective;

verus! {

/// One RGBA color, a byte per channel.
#[derive(Clone, Copy, PartialEq, Eq, Structural, Debug)]
pub struct Rgba {
    pub r: u8,
    pub g: u8,
    pub b: u8,
    pub a: u8,
}

/// The channel of `c` that byte offset `o` within a pixel holds.
pub open spec fn rgba_component(c: Rgba, o: int) -> u8 {
    if o == 0 {
        c.r
    } else if o == 1 {
        c.g
    } else if o == 2 {
        c.b
    } else {
        c.a
    }
}

/// A `width x height` RGBA surface owning its byte buffer.
pub struct ImageWriter {
    data: Vec<u8>,
    width: u32,
    height: u32,
}

impl ImageWriter {
    pub closed spec fn spec_width(&self) -> int {
        self.width as int
    }

    pub closed spec fn spec_height(&self) -> int {
        self.height as int
    }

    /// Four bytes per pixel, one slot per cell of the surface.
    pub closed spec fn wf(&self) -> bool {
        self.data@.len() == self.spec_width() * self.spec_height() * 4
    }

    /// The color stored at pixel `(x, y)`.
    pub closed spec fn pixel(&self, x: int, y: int) -> Rgba {
        let base = (x + y * self.spec_width()) * 4;
        Rgba {
            r: self.data@[base],
            g: self.data@[base + 1],
            b: self.data@[base + 2],
            a: self.data@[base + 3],
        }
    }

    /// `(x, y)` addresses a pixel of this surface.
    pub open spec fn pixel_in_bounds(&self, x: int, y: int) -> bool {
        0 <= x < self.spec_width() && 0 <= y < self.spec_height()
    }

    /// Allocates a surface with every pixel set to `fill`.
    pub fn new_fill(width: u32, height: u32, fill: Rgba) -> (r: ImageWriter)
        requires
            width * height * 4 <= usize::MAX,
        ensures
            r.wf(),
            r.spec_width() == width,
            r.spec_height() == height,
            forall|x: int, y: int| r.pixel_in_bounds(x, y) ==> r.pixel(x, y) == fill,
    {
        proof {
            assert(width * height >= 0 && width * height * 4 == 4 * (width * height)) by (
            nonlinear_arith);
        }
        let n: usize = (width as usize) * (height as usize);
        let mut data: Vec<u8> = Vec::new();
        let mut i: usize = 0;
        while i < n
            invariant
                i <= n,
                4 * n <= usize::MAX,
                data@.len() == 4 * i,
                forall|j: int|
                    0 <= j < data@.len() ==> (#[trigger] data@[j]) == rgba_component(fill, j % 4),
            decreases n - i,
        {
            let ghost pre = data@;
            data.push(fill.r);
            data.push(fill.g);
            data.push(fill.b);
            data.push(fill.a);
            proof {
                assert forall|j: int| 0 <= j < data@.len() implies (#[trigger] data@[j])
                    == rgba_component(fill, j % 4) by {
                    if j >= pre.len() {
                        let o = j - pre.len();
                        assert(j % 4 == o) by (nonlinear_arith)
                            requires j == 4 * (i as int) + o && 0 <= o < 4;
                    }
                }
            }
            i = i + 1;
        }
        let r = ImageWriter { data, width, height };
        proof {
            assert(r.data@.len() == r.spec_width() * r.spec_height() * 4) by (nonlinear_arith)
                requires
                    r.data@.len() == 4 * (width as int * height as int),
                    r.spec_width() == width as int,
                    r.spec_height() == height as int;
            assert forall|x: int, y: int| r.pixel_in_bounds(x, y) implies r.pixel(x, y)
                == fill by {
                lemma_linear_index_bounds(x, y, width as int, height as int);
                let k = x + y * r.spec_width();
                assert(0 <= k * 4 && k * 4 + 3 < r.data@.len() && (k * 4) % 4 == 0 && (k * 4 + 1)
                    % 4 == 1 && (k * 4 + 2) % 4 == 2 && (k * 4 + 3) % 4 == 3) by (nonlinear_arith)
                    requires
                        0 <= k < width as int * height as int,
                        r.data@.len() == 4 * (width as int * height as int);
            }
        }
        r
    }

    /// The `(width, height)` pair.
    pub fn dimensions(&self) -> (r: (u32, u32))
        ensures
            r.0 == self.spec_width(),
            r.1 == self.spec_height(),
    {
        (self.width, self.height)
    }

    /// Reads the color at `(x, y)`, or `None` outside the surface.
    pub fn get_pixel(&self, x: u32, y: u32) -> (r: Option<Rgba>)
        requires
            self.wf(),
        ensures
            self.pixel_in_bounds(x as int, y as int) ==> r == Some(
                self.pixel(x as int, y as int),
            ),
            !self.pixel_in_bounds(x as int, y as int) ==> r is None,
    {
        if x >= self.width || y >= self.height {
            return None;
        }
        let n = self.data.len();
        proof {
            assert(n == self.spec_width() * self.spec_height() * 4);
            lemma_linear_index_bounds(x as int, y as int, self.spec_width(), self.spec_height());
            assert((x + y * self.spec_width()) * 4 + 3 < self.spec_width() * self.spec_height()
                * 4) by (nonlinear_arith)
                requires
                    0 <= x + y * self.spec_width() < self.spec_width() * self.spec_height(),
            ;
        }
        let base: usize = ((x as usize) + (y as usize) * (self.width as usize)) * 4;
        Some(
            Rgba {
                r: self.data[base],
                g: self.data[base + 1],
                b: self.data[base + 2],
                a: self.data[base + 3],
            },
        )
    }

    /// Writes one pixel. A write at `x >= width` or `y >= height` is
    /// ignored and leaves the surface unchanged; an in-bounds write sets
    /// exactly that pixel and leaves every other pixel as it was.
    pub fn put_pixel(&mut self, x: u32, y: u32, color: Rgba)
        requires
            old(self).wf(),
        ensures
            final(self).wf(),
            final(self).spec_width() == old(self).spec_width(),
            final(self).spec_height() == old(self).spec_height(),
            !old(self).pixel_in_bounds(x as int, y as int) ==> *final(self) == *old(self),
            old(self).pixel_in_bounds(x as int, y as int) ==> {
                &&& final(self).pixel(x as int, y as int) == color
                &&& forall|x2: int, y2: int|
                    old(self).pixel_in_bounds(x2, y2) && !(x2 == x as int && y2 == y as int)
                        ==> final(self).pixel(x2, y2) == old(self).pixel(x2, y2)
            },
    {
        if x >= self.width || y >= self.height {
            return ;
        }
        let n = self.data.len();
        proof {
            lemma_linear_index_bounds(x as int, y as int, self.spec_width(), self.spec_height());
            assert((x + y * self.spec_width()) * 4 + 3 < self.spec_width() * self.spec_height()
                * 4) by (nonlinear_arith)
                requires
                    0 <= x + y * self.spec_width() < self.spec_width() * self.spec_height(),
            ;
        }
        let base: usize = ((x as usize) + (y as usize) * (self.width as usize)) * 4;
        self.data.set(base, color.r);
        self.data.set(base + 1, color.g);
        self.data.set(base + 2, color.b);
        self.data.set(base + 3, color.a);
        proof {
            assert forall|x2: int, y2: int|
                old(self).pixel_in_bounds(x2, y2) && !(x2 == x as int && y2 == y as int)
                implies final(self).pixel(x2, y2) == old(self).pixel(x2, y2) by {
                lemma_linear_index_bounds(x2, y2, self.spec_width(), self.spec_height());
                let a = x2 + y2 * self.spec_width();
                let b = x as int + y as int * self.spec_width();
                if a == b {
                    lemma_linear_index_injective(x2, y2, x as int, y as int, self.spec_width());
                }
                assert(a != b);
                assert((a < b ==> a * 4 + 3 < b * 4) && (b < a ==> b * 4 + 3 < a * 4)) by (
                nonlinear_arith)
                    requires
                        a != b,
                ;
            }
        }
    }

    /// Overwrites every byte of the buffer with `byte`, the wholesale
    /// clear a full redraw starts from.
    pub fn fill_bytes(&mut self, byte: u8)
        requires
            old(self).wf(),
        ensures
            final(self).wf(),
            final(self).spec_width() == old(self).spec_width(),
            final(self).spec_height() == old(self).spec_height(),
            forall|x: int, y: int|
                final(self).pixel_in_bounds(x, y) ==> final(self).pixel(x, y) == (Rgba {
                    r: byte,
                    g: byte,
                    b: byte,
                    a: byte,
                }),
    {
        let n = self.data.len();
        let mut i: usize = 0;
        while i < n
            invariant
                i <= n,
                self.data@.len() == n,
                self.width == old(self).width,
                self.height == old(self).height,
                forall|k: int| 0 <= k < i ==> self.data@[k] == byte,
            decreases n - i,
        {
            self.data.set(i, byte);
            i = i + 1;
        }
        proof {
            assert forall|x: int, y: int| final(self).pixel_in_bounds(x, y)
                implies final(self).pixel(x, y) == (Rgba { r: byte, g: byte, b: byte, a: byte }) by {
                lemma_linear_index_bounds(x, y, self.spec_width(), self.spec_height());
                let k = x + y * self.spec_width();
                assert(0 <= k * 4 && k * 4 + 3 < self.spec_width() * self.spec_height() * 4) by (
                nonlinear_arith)
                    requires
                        0 <= k < self.spec_width() * self.spec_height(),
                ;
            }
        }
    }
}


/// Mask point `k` (for some `k < upto`), shifted by `(ox, oy)`, lands on
/// position `(x, y)`.
pub open spec fn mask_maps_to(
    pixels: Seq<(i32, i32)>,
    ox: int,
    oy: int,
    upto: int,
    x: int,
    y: int,
) -> bool {
    exists|k: int| 0 <= k < upto && pixels[k].0 + ox == x && pixels[k].1 + oy == y
}

impl ImageWriter {
    /// One visualization pass, as a frame redraw performs it: every byte
    /// of the surface is reset to `background`, then each mask pixel is
    /// drawn in `color` at its position shifted by `(offset_x, offset_y)`
    /// (recentering world coordinates onto the canvas). Shifted positions
    /// outside the surface are dropped, so afterwards a surface pixel
    /// holds `color` exactly when some mask pixel lands on it.
    pub fn draw_mask(
        &mut self,
        pixels: &Vec<(i32, i32)>,
        offset_x: i64,
        offset_y: i64,
        background: u8,
        color: Rgba,
    )
        requires
            old(self).wf(),
            -0x1_0000_0000 <= offset_x <= 0x1_0000_0000,
            -0x1_0000_0000 <= offset_y <= 0x1_0000_0000,
        ensures
            final(self).wf(),
            final(self).spec_width() == old(self).spec_width(),
            final(self).spec_height() == old(self).spec_height(),
            forall|x: int, y: int|
                final(self).pixel_in_bounds(x, y) && mask_maps_to(
                    pixels@,
                    offset_x as int,
                    offset_y as int,
                    pixels@.len() as int,
                    x,
                    y,
                ) ==> final(self).pixel(x, y) == color,
            forall|x: int, y: int|
                final(self).pixel_in_bounds(x, y) && !mask_maps_to(
                    pixels@,
                    offset_x as int,
                    offset_y as int,
                    pixels@.len() as int,
                    x,
                    y,
                ) ==> final(self).pixel(x, y) == (Rgba {
                    r: background,
                    g: background,
                    b: background,
                    a: background,
                }),
    {
        self.fill_bytes(background);
        let n = pixels.len();
        let mut k: usize = 0;
        while k < n
            invariant
                self.wf(),
                self.spec_width() == old(self).spec_width(),
                self.spec_height() == old(self).spec_height(),
                k <= n,
                n == pixels@.len(),
                -0x1_0000_0000 <= offset_x <= 0x1_0000_0000,
                -0x1_0000_0000 <= offset_y <= 0x1_0000_0000,
                forall|x: int, y: int|
                    self.pixel_in_bounds(x, y) && mask_maps_to(
                        pixels@,
                        offset_x as int,
                        offset_y as int,
                        k as int,
                        x,
                        y,
                    ) ==> self.pixel(x, y) == color,
                forall|x: int, y: int|
                    self.pixel_in_bounds(x, y) && !mask_maps_to(
                        pixels@,
                        offset_x as int,
                        offset_y as int,
                        k as int,
                        x,
                        y,
                    ) ==> self.pixel(x, y) == (Rgba {
                        r: background,
                        g: background,
                        b: background,
                        a: background,
                    }),
            decreases n - k,
        {
            let p = pixels[k];
            let tx: i64 = p.0 as i64 + offset_x;
            let ty: i64 = p.1 as i64 + offset_y;
            let ghost pre = *self;
            if 0 <= tx && tx <= u32::MAX as i64 && 0 <= ty && ty <= u32::MAX as i64 {
                self.put_pixel(tx as u32, ty as u32, color);
            }
            proof {
                assert forall|x: int, y: int|
                    self.pixel_in_bounds(x, y) && mask_maps_to(
                        pixels@,
                        offset_x as int,
                        offset_y as int,
                        k + 1,
                        x,
                        y,
                    ) implies self.pixel(x, y) == color by {
                    let j = choose|j: int|
                        0 <= j < k + 1 && pixels@[j].0 + offset_x == x && pixels@[j].1 + offset_y
                            == y;
                    if j == k as int {
                        assert(x == tx as int && y == ty as int);
                    } else {
                        assert(mask_maps_to(
                            pixels@,
                            offset_x as int,
                            offset_y as int,
                            k as int,
                            x,
                            y,
                        ));
                        assert(pre.pixel(x, y) == color);
                        if 0 <= tx && tx <= u32::MAX && 0 <= ty && ty <= u32::MAX {
                            if x == tx as int && y == ty as int {
                            } else {
                                assert(self.pixel(x, y) == pre.pixel(x, y));
                            }
                        }
                    }
                }
                assert forall|x: int, y: int|
                    self.pixel_in_bounds(x, y) && !mask_maps_to(
                        pixels@,
                        offset_x as int,
                        offset_y as int,
                        k + 1,
                        x,
                        y,
                    ) implies self.pixel(x, y) == (Rgba {
                    r: background,
                    g: background,
                    b: background,
                    a: background,
                }) by {
                    assert(!mask_maps_to(
                        pixels@,
                        offset_x as int,
                        offset_y as int,
                        k as int,
                        x,
                        y,
                    ));
                    assert(!(pixels@[k as int].0 + offset_x == x && pixels@[k as int].1 + offset_y
                        == y));
                    if 0 <= tx && tx <= u32::MAX && 0 <= ty && ty <= u32::MAX {
                        assert(!(x == tx as int && y == ty as int));
                    }
                }
            }
            k = k + 1;
        }
    }
}

} // verus!
