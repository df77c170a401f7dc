use vstd::prelude::*;

use crate::pixels::PIX_LIM;

verus! {

/// A sprite's pixels: row-major RGBA bytes. A pixel takes part in shatter
/// decomposition exactly when its alpha byte is positive.
pub struct TextureData {
    pub width: usize,
    pub height: usize,
    pub rgba: Vec<u8>,
}

pub open spec fn texture_wf(t: TextureData) -> bool {
    &&& 0 < t.width < PIX_LIM
    &&& 0 < t.height < PIX_LIM
    &&& t.rgba.len() == t.width * t.height * 4
}

/// Whether the pixel with row-major index i is opaque.
pub open spec fn opaque_at(t: TextureData, i: int) -> bool {
    t.rgba[4 * i + 3] > 0
}

/// Row-major pixel indices stay inside the buffer.
pub proof fn lemma_pixel_index(x: int, y: int, w: int, h: int)
    requires
        0 <= x < w,
        0 <= y < h,
    ensures
        0 <= y * w + x < w * h,
        4 * (y * w + x) + 3 < w * h * 4,
{
    assert(y * w + x < w * h && 0 <= y * w && 4 * (y * w + x) + 3 < w * h * 4) by (nonlinear_arith)
        requires
            0 <= x < w,
            0 <= y < h,
    ;
}

impl TextureData {
    /// Whether the pixel at (x, y) is opaque.
    pub fn is_opaque(&self, x: usize, y: usize) -> (r: bool)
        requires
            texture_wf(*self),
            x < self.width,
            y < self.height,
        ensures
            r == opaque_at(*self, y * self.width + x),
    {
        proof {
            lemma_pixel_index(x as int, y as int, self.width as int, self.height as int);
        }
        let i: usize = y * self.width + x;
        self.rgba[4 * i + 3] > 0
    }
}

/// Whether the pixel with row-major index i is opaque, checked directly
/// on the byte buffer.
impl TextureData {
    pub fn opaque_idx(&self, i: usize) -> (r: bool)
        requires
            texture_wf(*self),
            i < self.width * self.height,
        ensures
            r == opaque_at(*self, i as int),
    {
        proof {
            assert(4 * (i as int) + 3 < self.width * self.height * 4);
        }
        self.rgba[4 * i + 3] > 0
    }
}

/// The simulation's texture registry: source sprites loaded at startup and
/// the atlases the shatter decomposer emits at run time. Entries are only
/// ever appended, so handles stay valid.
pub struct TextureStore {
    pub entries: Vec<TextureData>,
}

pub open spec fn store_wf(s: TextureStore) -> bool {
    forall|i: int| 0 <= i < s.entries.len() ==> texture_wf(#[trigger] s.entries[i])
}

impl TextureStore {
    pub fn new() -> (r: TextureStore)
        ensures
            store_wf(r),
            r.entries@.len() == 0,
    {
        TextureStore { entries: Vec::new() }
    }

    /// Register a texture; the returned handle refers to it from then on.
    pub fn add(&mut self, t: TextureData) -> (handle: usize)
        requires
            store_wf(*old(self)),
            texture_wf(t),
        ensures
            store_wf(*final(self)),
            final(self).entries@ == old(self).entries@.push(t),
            handle == old(self).entries@.len(),
    {
        let handle: usize = self.entries.len();
        self.entries.push(t);
        handle
    }

    pub fn len(&self) -> (r: usize)
        ensures
            r == self.entries@.len(),
    {
        self.entries.len()
    }

    pub fn get(&self, handle: usize) -> (r: &TextureData)
        requires
            store_wf(*self),
            handle < self.entries@.len(),
        ensures
            *r == self.entries@[handle as int],
            texture_wf(*r),
    {
        &self.entries[handle]
    }
}

} // verus!
