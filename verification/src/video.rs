use vstd::prelude::*;

verus! {

/// Width of the frame buffer in pixels.
pub const WIDTH: usize = 64;

/// Height of the frame buffer in pixels.
pub const HEIGHT: usize = 32;

/// Total number of pixels in the 64 x 32 grid.
pub const PIXELS: usize = 2048;

/// A monochrome 64 x 32 frame buffer. A cell holds 0 when its pixel is off
/// and 255 when it is on; the nonzero sentinel keeps the buffer directly
/// presentable by a host renderer.
pub struct Video {
    pub gfx: Vec<u32>,
}

impl View for Video {
    type V = Seq<u32>;

    open spec fn view(&self) -> Seq<u32> {
        self.gfx@
    }
}

/// Builds a vector of `n` copies of `value`.
fn filled(n: usize, value: u32) -> (v: Vec<u32>)
    ensures
        v@.len() == n,
        forall|k: int| 0 <= k < n ==> v@[k] == value,
{
    let mut v: Vec<u32> = Vec::new();
    while v.len() < n
        invariant
            v@.len() <= n,
            forall|k: int| 0 <= k < v@.len() ==> v@[k] == value,
        decreases n - v@.len(),
    {
        v.push(value);
    }
    v
}

impl Video {
    /// The buffer holds exactly one cell per pixel, and every cell is either
    /// fully off (0) or fully on (255).
    pub open spec fn wf(&self) -> bool {
        &&& self@.len() == 2048
        &&& forall|k: int| 0 <= k < 2048 ==> self@[k] == 0 || self@[k] == 255
    }

    pub fn new() -> (v: Video)
        ensures
            v.wf(),
            forall|k: int| 0 <= k < 2048 ==> v@[k] == 0,
    {
        Video { gfx: filled(PIXELS, 0) }
    }

    /// Resets every pixel to off.
    pub fn clear_screen(&mut self)
        ensures
            final(self).wf(),
            final(self)@.len() == 2048,
            forall|k: int| 0 <= k < 2048 ==> final(self)@[k] == 0,
    {
        self.gfx = filled(PIXELS, 0);
    }

    /// Maps an (x, y) coordinate to a linear cell index, wrapping modulo the
    /// pixel count so that sprites running off the visible edge wrap around
    /// instead of faulting.
    pub fn get_index(&self, x_coordinate: usize, y_coordinate: usize) -> (r: usize)
        requires
            x_coordinate + 64 * y_coordinate <= usize::MAX,
        ensures
            r == (x_coordinate + 64 * y_coordinate) % 2048,
            r < 2048,
    {
        (x_coordinate + 64 * y_coordinate) % 2048
    }

    /// Toggles the cell at `index` between off (0) and on (255).
    pub fn xor(&mut self, index: usize)
        requires
            index < old(self)@.len(),
        ensures
            final(self)@.len() == old(self)@.len(),
            final(self)@[index as int] == old(self)@[index as int] ^ 255,
            forall|k: int|
                0 <= k < old(self)@.len() && k != index ==> final(self)@[k] == old(self)@[k],
            old(self).wf() ==> final(self).wf(),
    {
        let cell = self.gfx[index];
        proof {
            assert(cell == 0 ==> cell ^ 255 == 255) by (bit_vector);
            assert(cell == 255 ==> cell ^ 255 == 0) by (bit_vector);
        }
        self.gfx.set(index, cell ^ 255);
    }

    /// Reads the cell at `index` as a byte: 0 when the pixel is off, nonzero
    /// when it is on.
    pub fn get_pixel(&self, index: usize) -> (r: u8)
        requires
            self.wf(),
            index < 2048,
        ensures
            r == self@[index as int] as u8,
            r == 0 <==> self@[index as int] == 0,
    {
        self.gfx[index] as u8
    }
}

} // verus!
