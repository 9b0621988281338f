//! The renderer: a fixed-size framebuffer of packed 24-bit RGB pixels plus
//! the camera state read each frame, with bounds-checked pixel writes.

use vstd::prelude::*;

verus! {

/// Packed background color: black.
pub const BACKGROUND: u32 = 0x000000;

/// Row-major index of pixel `(x, y)` in a buffer of width `w`.
pub open spec fn pix(w: int, x: int, y: int) -> int {
    y * w + x
}

/// The buffer after a bounds-checked write of `c` at `(x, y)`: out-of-range
/// coordinates leave it unchanged.
pub open spec fn put_pixel_spec(w: int, h: int, buf: Seq<u32>, x: int, y: int, c: u32) -> Seq<
    u32,
> {
    if 0 <= x < w && 0 <= y < h {
        buf.update(pix(w, x, y), c)
    } else {
        buf
    }
}

/// Row-major pixel indexing is injective over the grid.
pub proof fn lemma_pix_injective(w: int, x1: int, y1: int, x2: int, y2: int)
    requires
        w > 0,
        0 <= x1 < w,
        0 <= x2 < w,
        0 <= y1,
        0 <= y2,
        pix(w, x1, y1) == pix(w, x2, y2),
    ensures
        x1 == x2,
        y1 == y2,
{
    assert(x1 == x2 && y1 == y2) by (nonlinear_arith)
        requires
            w > 0,
            0 <= x1 < w,
            0 <= x2 < w,
            0 <= y1,
            0 <= y2,
            y1 * w + x1 == y2 * w + x2,
    ;
}

/// Every grid coordinate indexes inside the buffer.
pub proof fn lemma_pix_in_range(w: int, h: int, x: int, y: int)
    requires
        w > 0,
        h > 0,
        0 <= x < w,
        0 <= y < h,
    ensures
        0 <= pix(w, x, y) < w * h,
{
    assert(0 <= y * w + x < w * h) by (nonlinear_arith)
        requires
            w > 0,
            0 <= x < w,
            0 <= y < h,
    ;
}

/// A bounds-checked write changes exactly the addressed grid cell.
pub proof fn lemma_put_pixel_pointwise(w: int, h: int, buf: Seq<u32>, x: int, y: int, c: u32)
    requires
        w > 0,
        h > 0,
        buf.len() == w * h,
    ensures
        put_pixel_spec(w, h, buf, x, y, c).len() == buf.len(),
        forall|px: int, py: int|
            0 <= px < w && 0 <= py < h ==> #[trigger] put_pixel_spec(w, h, buf, x, y, c)[pix(
                w,
                px,
                py,
            )] == (if px == x && py == y {
                c
            } else {
                buf[pix(w, px, py)]
            }),
{
    if 0 <= x < w && 0 <= y < h {
        lemma_pix_in_range(w, h, x, y);
        assert forall|px: int, py: int| 0 <= px < w && 0 <= py < h implies #[trigger] put_pixel_spec(
            w,
            h,
            buf,
            x,
            y,
            c,
        )[pix(w, px, py)] == (if px == x && py == y {
            c
        } else {
            buf[pix(w, px, py)]
        }) by {
            lemma_pix_in_range(w, h, px, py);
            if !(px == x && py == y) {
                if pix(w, px, py) == pix(w, x, y) {
                    lemma_pix_injective(w, px, py, x, y);
                }
            }
        }
    }
}

/// A software renderer: a `width x height` grid of packed-color pixels,
/// cleared and redrawn every frame, plus the camera pose it reads.
///
/// Camera position and zoom are plain fixed-point values (1000 units per
/// world unit); the zoom is clamped into its working range at the start of
/// each frame, not on assignment.
pub struct Renderer {
    pub width: usize,
    pub height: usize,
    pub buffer: Vec<u32>,
    pub camera_x: i64,
    pub camera_z: i64,
    pub zoom: i64,
}

impl Renderer {
    /// The structural invariant: the buffer covers exactly the pixel grid,
    /// and the dimensions are positive and small enough that every index
    /// and every fixed-point screen coordinate stays in machine range.
    pub open spec fn wf(&self) -> bool {
        &&& self.buffer@.len() == self.width * self.height
        &&& 1 <= self.width <= 4096
        &&& 1 <= self.height <= 4096
    }

    /// A renderer with an 800 x 600 buffer, all pixels at the background
    /// color, the camera at the world origin, and unit zoom.
    pub fn new() -> (r: Renderer)
        ensures
            r.wf(),
            r.width == 800,
            r.height == 600,
            r.buffer@ =~= Seq::new(480000, |i: int| BACKGROUND),
            r.camera_x == 0,
            r.camera_z == 0,
            r.zoom == 1000,
    {
        let width: usize = 800;
        let height: usize = 600;
        let mut buffer: Vec<u32> = Vec::new();
        let mut i: usize = 0;
        while i < 480000
            invariant
                i <= 480000,
                buffer@.len() == i,
                forall|j: int| 0 <= j < i ==> buffer@[j] == BACKGROUND,
            decreases 480000 - i,
        {
            buffer.push(BACKGROUND);
            i = i + 1;
        }
        Renderer { width, height, buffer, camera_x: 0, camera_z: 0, zoom: 1000 }
    }

    /// The buffer width in pixels.
    pub fn buffer_width(&self) -> (w: usize)
        ensures
            w == self.width,
    {
        self.width
    }

    /// The buffer height in pixels.
    pub fn buffer_height(&self) -> (h: usize)
        ensures
            h == self.height,
    {
        self.height
    }

    /// Read-only access to the pixel grid, for the presentation sink.
    pub fn pixels(&self) -> (buf: &Vec<u32>)
        ensures
            buf@ == self.buffer@,
    {
        &self.buffer
    }

    /// Resets every pixel to the background color.
    pub fn clear(&mut self)
        requires
            old(self).wf(),
        ensures
            final(self).wf(),
            final(self).width == old(self).width,
            final(self).height == old(self).height,
            final(self).camera_x == old(self).camera_x,
            final(self).camera_z == old(self).camera_z,
            final(self).zoom == old(self).zoom,
            final(self).buffer@ =~= Seq::new(old(self).buffer@.len(), |i: int| BACKGROUND),
    {
        let n: usize = self.buffer.len();
        let mut i: usize = 0;
        while i < n
            invariant
                i <= n,
                n == self.buffer@.len(),
                self.width == old(self).width,
                self.height == old(self).height,
                self.camera_x == old(self).camera_x,
                self.camera_z == old(self).camera_z,
                self.zoom == old(self).zoom,
                forall|j: int| 0 <= j < i ==> self.buffer@[j] == BACKGROUND,
            decreases n - i,
        {
            self.buffer.set(i, BACKGROUND);
            i = i + 1;
        }
    }

    /// Bounds-checked pixel write: out-of-buffer coordinates are silently
    /// dropped.
    pub fn put_pixel(&mut self, x: i64, y: i64, color: u32)
        requires
            old(self).wf(),
        ensures
            final(self).wf(),
            final(self).width == old(self).width,
            final(self).height == old(self).height,
            final(self).camera_x == old(self).camera_x,
            final(self).camera_z == old(self).camera_z,
            final(self).zoom == old(self).zoom,
            final(self).buffer@ == put_pixel_spec(
                old(self).width as int,
                old(self).height as int,
                old(self).buffer@,
                x as int,
                y as int,
                color,
            ),
    {
        if x < 0 || y < 0 {
            return ;
        }
        let w: i64 = self.width as i64;
        let h: i64 = self.height as i64;
        if x >= w || y >= h {
            return ;
        }
        let xu: usize = x as usize;
        let yu: usize = y as usize;
        proof {
            assert((yu as int) * (self.width as int) + (xu as int) < (self.width as int) * (
            self.height as int) && (self.width as int) * (self.height as int)
                <= 16777216) by (nonlinear_arith)
                requires
                    0 <= xu < self.width,
                    0 <= yu < self.height,
                    self.width <= 4096,
                    self.height <= 4096,
            ;
        }
        let idx: usize = yu * self.width + xu;
        self.buffer.set(idx, color);
    }
}

} // verus!
