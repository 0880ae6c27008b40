//! The pixel buffer: one packed colour and one depth per pixel, written
//! under a depth test.

use vstd::prelude::*;

verus! {

/// The depth of a pixel that nothing has been drawn on. No write can be
/// closer than a write at this depth is far.
pub const FAR: i32 = 0x7fff_ffff;

/// What a framebuffer holds, as mathematics: `colors` and `depths` are
/// row-major, pixel `(x, y)` at index `y * width + x`.
pub struct FramebufferView {
    pub width: int,
    pub height: int,
    pub colors: Seq<u32>,
    pub depths: Seq<i32>,
    pub background: u32,
    pub current: u32,
}

impl FramebufferView {
    /// Both buffers hold one entry per pixel.
    pub open spec fn wf(self) -> bool {
        &&& 0 <= self.width
        &&& 0 <= self.height
        &&& self.colors.len() == self.width * self.height
        &&& self.depths.len() == self.width * self.height
    }

    /// Whether the buffer has a pixel `(x, y)`.
    pub open spec fn in_bounds(self, x: int, y: int) -> bool {
        0 <= x < self.width && 0 <= y < self.height
    }

    /// Where pixel `(x, y)` stands in the two buffers.
    pub open spec fn index(self, x: int, y: int) -> int {
        y * self.width + x
    }

    /// The packed colour of pixel `(x, y)`.
    pub open spec fn color_at(self, x: int, y: int) -> u32 {
        self.colors[self.index(x, y)]
    }

    /// The depth of pixel `(x, y)`.
    pub open spec fn depth_at(self, x: int, y: int) -> i32 {
        self.depths[self.index(x, y)]
    }

    /// Every pixel at the background colour and at the far depth.
    pub open spec fn clear(self) -> FramebufferView {
        FramebufferView {
            colors: Seq::new(self.colors.len(), |i: int| self.background),
            depths: Seq::new(self.depths.len(), |i: int| FAR),
            ..self
        }
    }

    /// The same buffer with another current colour.
    pub open spec fn set_current(self, color: u32) -> FramebufferView {
        FramebufferView { current: color, ..self }
    }

    /// The same buffer with another background colour.
    pub open spec fn set_background(self, color: u32) -> FramebufferView {
        FramebufferView { background: color, ..self }
    }

    /// Whether a write at `depth` to pixel `(x, y)` is taken: the pixel
    /// exists and `depth` is strictly closer than what the pixel holds.
    pub open spec fn accepts(self, x: int, y: int, depth: i32) -> bool {
        self.in_bounds(x, y) && depth < self.depth_at(x, y)
    }

    /// The depth-tested write of the current colour. A write outside the
    /// buffer, or one that is not strictly closer, changes nothing: of two
    /// writes at the same depth the first one stays.
    pub open spec fn point(self, x: int, y: int, depth: i32) -> FramebufferView {
        if self.accepts(x, y, depth) {
            FramebufferView {
                colors: self.colors.update(self.index(x, y), self.current),
                depths: self.depths.update(self.index(x, y), depth),
                ..self
            }
        } else {
            self
        }
    }

    /// One shading decision: inside the buffer, `color` becomes the current
    /// colour and is written under the depth test; outside, nothing happens.
    pub open spec fn write(self, x: int, y: int, depth: i32, color: u32) -> FramebufferView {
        if self.in_bounds(x, y) {
            self.set_current(color).point(x, y, depth)
        } else {
            self
        }
    }

    /// Distinct pixels have distinct indices, and every pixel's index is in
    /// the buffers.
    pub proof fn lemma_index(self, x: int, y: int)
        requires
            self.wf(),
            self.in_bounds(x, y),
        ensures
            0 <= y * self.width <= self.index(x, y) < self.colors.len(),
            self.index(x, y) < self.depths.len(),
            forall|x2: int, y2: int|
                self.in_bounds(x2, y2) && (x2 != x || y2 != y) ==> #[trigger] self.index(x2, y2)
                    != self.index(x, y),
    {
        let w = self.width;
        let h = self.height;
        assert(0 <= y * w && y * w + w <= h * w) by (nonlinear_arith)
            requires
                0 <= y < h,
                0 <= w,
        ;
        assert forall|x2: int, y2: int|
            self.in_bounds(x2, y2) && (x2 != x || y2 != y) implies #[trigger] self.index(x2, y2)
            != self.index(x, y) by {
            if y2 < y {
                assert(y2 * w + w <= y * w) by (nonlinear_arith)
                    requires
                        y2 < y,
                        0 <= w,
                ;
            } else if y2 > y {
                assert(y * w + w <= y2 * w) by (nonlinear_arith)
                    requires
                        y < y2,
                        0 <= w,
                ;
            }
        }
    }

    /// Writes keep the shape of the buffer.
    pub proof fn lemma_write_wf(self, x: int, y: int, depth: i32, color: u32)
        requires
            self.wf(),
        ensures
            self.write(x, y, depth, color).wf(),
            self.write(x, y, depth, color).width == self.width,
            self.write(x, y, depth, color).height == self.height,
            self.point(x, y, depth).wf(),
    {
        if self.in_bounds(x, y) {
            self.lemma_index(x, y);
        }
    }

    /// After a write the pixel holds the closer of the old and the new
    /// depth, and no other pixel has changed.
    pub proof fn lemma_write_keeps_nearest(self, x: int, y: int, depth: i32, color: u32)
        requires
            self.wf(),
            self.in_bounds(x, y),
        ensures
            self.write(x, y, depth, color).depth_at(x, y) == (if depth < self.depth_at(x, y) {
                depth
            } else {
                self.depth_at(x, y)
            }),
            self.write(x, y, depth, color).color_at(x, y) == (if depth < self.depth_at(x, y) {
                color
            } else {
                self.color_at(x, y)
            }),
            forall|x2: int, y2: int|
                self.in_bounds(x2, y2) && (x2 != x || y2 != y) ==> #[trigger] self.write(
                    x,
                    y,
                    depth,
                    color,
                ).depth_at(x2, y2) == self.depth_at(x2, y2),
            forall|x2: int, y2: int|
                self.in_bounds(x2, y2) && (x2 != x || y2 != y) ==> #[trigger] self.write(
                    x,
                    y,
                    depth,
                    color,
                ).color_at(x2, y2) == self.color_at(x2, y2),
    {
        self.lemma_index(x, y);
        let after = self.write(x, y, depth, color);
        assert forall|x2: int, y2: int|
            self.in_bounds(x2, y2) && (x2 != x || y2 != y) implies #[trigger] after.depth_at(x2, y2)
            == self.depth_at(x2, y2) by {
            self.lemma_index(x2, y2);
        }
        assert forall|x2: int, y2: int|
            self.in_bounds(x2, y2) && (x2 != x || y2 != y) implies #[trigger] after.color_at(x2, y2)
            == self.color_at(x2, y2) by {
            self.lemma_index(x2, y2);
        }
    }

    /// Closer wins, whatever the order: two writes to one pixel at distinct
    /// depths leave the same colours and depths in either order.
    pub proof fn lemma_write_order(self, x: int, y: int, d1: i32, c1: u32, d2: i32, c2: u32)
        requires
            self.wf(),
            d1 != d2,
        ensures
            self.write(x, y, d1, c1).write(x, y, d2, c2).colors == self.write(x, y, d2, c2).write(
                x,
                y,
                d1,
                c1,
            ).colors,
            self.write(x, y, d1, c1).write(x, y, d2, c2).depths == self.write(x, y, d2, c2).write(
                x,
                y,
                d1,
                c1,
            ).depths,
    {
        if self.in_bounds(x, y) {
            self.lemma_index(x, y);
            let a = self.write(x, y, d1, c1).write(x, y, d2, c2);
            let b = self.write(x, y, d2, c2).write(x, y, d1, c1);
        }
    }

    /// Of two writes to one pixel at the same depth, the first one stays.
    pub proof fn lemma_write_tie(self, x: int, y: int, depth: i32, c1: u32, c2: u32)
        requires
            self.wf(),
        ensures
            self.write(x, y, depth, c1).write(x, y, depth, c2).colors == self.write(
                x,
                y,
                depth,
                c1,
            ).colors,
            self.write(x, y, depth, c1).write(x, y, depth, c2).depths == self.write(
                x,
                y,
                depth,
                c1,
            ).depths,
    {
        if self.in_bounds(x, y) {
            self.lemma_index(x, y);
        }
    }
}

/// A colour buffer and a depth buffer of the same size.
pub struct Framebuffer {
    width: usize,
    height: usize,
    buffer: Vec<u32>,
    zbuffer: Vec<i32>,
    background_color: u32,
    current_color: u32,
}

impl View for Framebuffer {
    type V = FramebufferView;

    closed spec fn view(&self) -> FramebufferView {
        FramebufferView {
            width: self.width as int,
            height: self.height as int,
            colors: self.buffer@,
            depths: self.zbuffer@,
            background: self.background_color,
            current: self.current_color,
        }
    }
}

impl Framebuffer {
    /// Both buffers hold one entry per pixel. Every constructor establishes
    /// this and every method keeps it.
    pub open spec fn wf(&self) -> bool {
        self@.wf()
    }

    proof fn lemma_cell(&self, x: usize, y: usize)
        requires
            self.wf(),
            x < self.width,
            y < self.height,
        ensures
            0 <= y * self.width <= y * self.width + x < self.buffer.len() <= usize::MAX,
            y * self.width + x < self.zbuffer.len(),
            y * self.width + x == self@.index(x as int, y as int),
    {
        self@.lemma_index(x as int, y as int);
    }

    /// A buffer of `width` by `height` pixels, all black and at the far
    /// depth; the background is black and the current colour white.
    pub fn new(width: usize, height: usize) -> (fb: Framebuffer)
        requires
            width * height <= usize::MAX,
        ensures
            fb.wf(),
            fb@ == (FramebufferView {
                width: width as int,
                height: height as int,
                colors: Seq::new((width * height) as nat, |i: int| 0u32),
                depths: Seq::new((width * height) as nat, |i: int| FAR),
                background: 0,
                current: 0xff_ffff,
            }),
    {
        assert(0 <= width * height) by (nonlinear_arith)
            requires
                0 <= width,
                0 <= height,
        ;
        let size: usize = width * height;
        let mut buffer: Vec<u32> = Vec::new();
        let mut zbuffer: Vec<i32> = Vec::new();
        let mut i: usize = 0;
        while i < size
            invariant
                i <= size,
                buffer@ =~= Seq::new(i as nat, |k: int| 0u32),
                zbuffer@ =~= Seq::new(i as nat, |k: int| FAR),
            decreases size - i,
        {
            buffer.push(0);
            zbuffer.push(FAR);
            i += 1;
        }
        Framebuffer { width, height, buffer, zbuffer, background_color: 0, current_color: 0xff_ffff }
    }

    /// The number of pixels in a row.
    pub fn width(&self) -> (w: usize)
        ensures
            w == self@.width,
    {
        self.width
    }

    /// The number of rows.
    pub fn height(&self) -> (h: usize)
        ensures
            h == self@.height,
    {
        self.height
    }

    /// The colour buffer, row-major, one packed colour per pixel.
    pub fn buffer(&self) -> (b: &Vec<u32>)
        ensures
            b@ == self@.colors,
    {
        &self.buffer
    }

    /// The packed colour of pixel `(x, y)`, if there is such a pixel.
    pub fn get_color(&self, x: usize, y: usize) -> (c: Option<u32>)
        requires
            self.wf(),
        ensures
            c == (if self@.in_bounds(x as int, y as int) {
                Some(self@.color_at(x as int, y as int))
            } else {
                None
            }),
    {
        if x < self.width && y < self.height {
            proof {
                self.lemma_cell(x, y);
            }
            Some(self.buffer[y * self.width + x])
        } else {
            None
        }
    }

    /// The depth of pixel `(x, y)`, if there is such a pixel.
    pub fn get_depth(&self, x: usize, y: usize) -> (d: Option<i32>)
        requires
            self.wf(),
        ensures
            d == (if self@.in_bounds(x as int, y as int) {
                Some(self@.depth_at(x as int, y as int))
            } else {
                None
            }),
    {
        if x < self.width && y < self.height {
            proof {
                self.lemma_cell(x, y);
            }
            Some(self.zbuffer[y * self.width + x])
        } else {
            None
        }
    }

    /// Resets every pixel to the background colour and the far depth.
    pub fn clear(&mut self)
        requires
            old(self).wf(),
        ensures
            final(self).wf(),
            final(self)@ == old(self)@.clear(),
    {
        let size: usize = self.buffer.len();
        let mut i: usize = 0;
        while i < size
            invariant
                i <= size,
                self.buffer.len() == size,
                self.zbuffer.len() == size,
                self.width == old(self).width,
                self.height == old(self).height,
                self.background_color == old(self).background_color,
                self.current_color == old(self).current_color,
                forall|k: int| 0 <= k < i ==> self.buffer@[k] == self.background_color,
                forall|k: int| 0 <= k < i ==> self.zbuffer@[k] == FAR,
            decreases size - i,
        {
            self.buffer.set(i, self.background_color);
            self.zbuffer.set(i, FAR);
            i += 1;
        }
        assert(self.buffer@ =~= old(self)@.clear().colors);
        assert(self.zbuffer@ =~= old(self)@.clear().depths);
    }

    /// Sets the colour that `clear` fills the buffer with.
    pub fn set_background_color(&mut self, color: u32)
        requires
            old(self).wf(),
        ensures
            final(self).wf(),
            final(self)@ == old(self)@.set_background(color),
    {
        self.background_color = color;
    }

    /// Sets the colour that the next `point` writes.
    pub fn set_current_color(&mut self, color: u32)
        requires
            old(self).wf(),
        ensures
            final(self).wf(),
            final(self)@ == old(self)@.set_current(color),
    {
        self.current_color = color;
    }

    /// Writes the current colour to pixel `(x, y)` if the pixel exists and
    /// `depth` is strictly closer than the depth it holds.
    pub fn point(&mut self, x: usize, y: usize, depth: i32)
        requires
            old(self).wf(),
        ensures
            final(self).wf(),
            final(self)@ == old(self)@.point(x as int, y as int, depth),
    {
        if x < self.width && y < self.height {
            proof {
                self.lemma_cell(x, y);
            }
            let index: usize = y * self.width + x;
            if depth < self.zbuffer[index] {
                self.buffer.set(index, self.current_color);
                self.zbuffer.set(index, depth);
            }
        }
    }

    /// One shading decision at a pixel given by signed coordinates: inside
    /// the buffer, `color` becomes the current colour and is written under
    /// the depth test; outside, nothing happens.
    pub fn write(&mut self, x: i32, y: i32, depth: i32, color: u32)
        requires
            old(self).wf(),
        ensures
            final(self).wf(),
            final(self)@ == old(self)@.write(x as int, y as int, depth, color),
    {
        if x >= 0 && y >= 0 && (x as usize) < self.width && (y as usize) < self.height {
            self.set_current_color(color);
            self.point(x as usize, y as usize, depth);
        }
    }
}

} // verus!
