use vstd::prelude::*;
use crate::texture::{blitted, cleared, Texture};

verus! {

/// Window positions are counted in units of one `SUBPIXELS`-th of a pixel.
pub const SUBPIXELS: u32 = 65536;

/// Width in pixels of the framebuffer a renderer presents.
pub const TEXTURE_WIDTH: u32 = 320;

/// Height in pixels of the framebuffer a renderer presents.
pub const TEXTURE_HEIGHT: u32 = 240;

/// What the presentation of a framebuffer in a window keeps track of: the
/// live window size and the fixed-size framebuffer drawn into.
pub struct Renderer {
    size: (u32, u32),
    texture: Texture,
}

/// The texel under window position `position`, given in units of one
/// `SUBPIXELS`-th of a pixel, when a `texture`-sized image is stretched over a
/// `window`-sized window; `None` where the position lies outside the window.
pub open spec fn texel_of(window: (u32, u32), texture: (nat, nat), position: (i64, i64)) -> Option<
    (u32, u32),
> {
    let w = window.0 * SUBPIXELS;
    let h = window.1 * SUBPIXELS;
    if 0 <= position.0 < w && 0 <= position.1 < h {
        Some(((position.0 * texture.0 / w) as u32, (position.1 * texture.1 / h) as u32))
    } else {
        None
    }
}

/// The indexes of the two triangles that make up the full-window quad.
pub open spec fn spec_quad_indexes() -> Seq<u16> {
    seq![0u16, 1, 2, 2, 1, 3]
}

/// `bytes` holds each of `values` as two bytes, all in one byte order: low
/// byte first throughout, or high byte first throughout.
pub open spec fn u16s_as_bytes(values: Seq<u16>, bytes: Seq<u8>) -> bool {
    &&& bytes.len() == 2 * values.len()
    &&& {
        ||| forall|k: int|
            0 <= k < values.len() ==> bytes[2 * k] as int == values[k] as int % 256 && bytes[2 * k
                + 1] as int == values[k] as int / 256
        ||| forall|k: int|
            0 <= k < values.len() ==> bytes[2 * k] as int == values[k] as int / 256 && bytes[2 * k
                + 1] as int == values[k] as int % 256
    }
}

/// Relies on bytemuck::cast_slice: a slice of `u16` seen as bytes holds each
/// element as its two bytes in the machine's byte order.
#[verifier::external_body]
fn index_bytes(indexes: &[u16]) -> (r: Vec<u8>)
    ensures
        u16s_as_bytes(indexes@, r@),
{
    bytemuck::cast_slice::<u16, u8>(indexes).to_vec()
}

/// The indexes of the full-window quad, two triangles with counter-clockwise
/// front faces.
pub fn quad_indexes() -> (r: Vec<u16>)
    ensures
        r@ == spec_quad_indexes(),
{
    let r: Vec<u16> = vec![0u16, 1, 2, 2, 1, 3];
    assert(r@ =~= spec_quad_indexes());
    r
}

/// The quad's indexes as the bytes of an index buffer, in the machine's byte
/// order.
pub fn quad_index_bytes() -> (r: Vec<u8>)
    ensures
        u16s_as_bytes(spec_quad_indexes(), r@),
{
    let indexes = quad_indexes();
    index_bytes(indexes.as_slice())
}

/// Where `num * t / d` lies for a window coordinate `num` below `d`.
proof fn lemma_scaled_below(num: int, t: int, d: int)
    requires
        0 <= num < d,
        0 <= t,
    ensures
        0 <= num * t / d,
        t > 0 ==> num * t / d < t,
        t == 0 ==> num * t / d == 0,
{
    vstd::arithmetic::div_mod::lemma_fundamental_div_mod(num * t, d);
    let q = num * t / d;
    let r = (num * t) % d;
    assert(0 <= num * t) by (nonlinear_arith)
        requires
            0 <= num,
            0 <= t,
    ;
    assert(0 <= q && (t > 0 ==> q < t) && (t == 0 ==> q == 0)) by (nonlinear_arith)
        requires
            num * t == d * q + r,
            0 <= r < d,
            0 <= num < d,
            0 <= t,
    ;
}

impl Renderer {
    /// The window size the renderer currently maps against.
    pub closed spec fn spec_size(&self) -> (u32, u32) {
        self.size
    }

    /// The framebuffer.
    pub closed spec fn spec_texture(&self) -> Texture {
        self.texture
    }

    /// The framebuffer is well formed and keeps the size it was made with.
    pub closed spec fn wf(&self) -> bool {
        &&& self.texture.wf()
        &&& self.texture.spec_width() == TEXTURE_WIDTH
        &&& self.texture.spec_height() == TEXTURE_HEIGHT
    }

    /// A renderer for a window of `size`, with a zero-filled framebuffer of
    /// `TEXTURE_WIDTH` by `TEXTURE_HEIGHT` pixels.
    pub fn new(size: (u32, u32)) -> (r: Renderer)
        ensures
            r.wf(),
            r.spec_size() == size,
            r.spec_texture().spec_width() == TEXTURE_WIDTH,
            r.spec_texture().spec_height() == TEXTURE_HEIGHT,
            r.spec_texture()@ == Seq::new(
                (TEXTURE_WIDTH * TEXTURE_HEIGHT * 4) as nat,
                |i: int| 0u8,
            ),
    {
        let texture = Texture::new((TEXTURE_WIDTH, TEXTURE_HEIGHT));
        Renderer { size, texture }
    }

    /// The window size.
    pub fn size(&self) -> (r: (u32, u32))
        ensures
            r == self.spec_size(),
    {
        self.size
    }

    /// The framebuffer.
    pub fn texture(&self) -> (r: &Texture)
        ensures
            *r == self.spec_texture(),
            self.wf() ==> r.wf() && r.spec_width() == TEXTURE_WIDTH && r.spec_height()
                == TEXTURE_HEIGHT,
    {
        &self.texture
    }

    /// Follows a change of the window's size; the framebuffer is untouched.
    pub fn resize(&mut self, new_size: (u32, u32))
        ensures
            final(self).spec_size() == new_size,
            final(self).spec_texture() == old(self).spec_texture(),
            final(self).wf() == old(self).wf(),
    {
        self.size = new_size;
    }

    /// The framebuffer texel under window position `position`, given in
    /// units of one `SUBPIXELS`-th of a pixel, scaling by the ratio of
    /// framebuffer size to window size; `None` outside the window.
    pub fn pos_to_pixel(&self, position: (i64, i64)) -> (r: Option<(u32, u32)>)
        requires
            self.wf(),
        ensures
            r == texel_of(
                self.spec_size(),
                (self.spec_texture().spec_width(), self.spec_texture().spec_height()),
                position,
            ),
            r matches Some(t) ==> t.0 < self.spec_texture().spec_width() && t.1
                < self.spec_texture().spec_height(),
    {
        let w: i64 = self.size.0 as i64 * SUBPIXELS as i64;
        let h: i64 = self.size.1 as i64 * SUBPIXELS as i64;
        if position.0 < 0 || position.1 < 0 || position.0 >= w || position.1 >= h {
            return None;
        }
        let (tw, th) = self.texture.size();
        proof {
            lemma_scaled_below(position.0 as int, tw as int, w as int);
            lemma_scaled_below(position.1 as int, th as int, h as int);
            assert((position.0 as int) * (tw as int) <= u64::MAX) by (nonlinear_arith)
                requires
                    0 <= position.0 < w,
                    w <= u32::MAX * 65536,
                    tw == 320,
            ;
            assert((position.1 as int) * (th as int) <= u64::MAX) by (nonlinear_arith)
                requires
                    0 <= position.1 < h,
                    h <= u32::MAX * 65536,
                    th == 240,
            ;
        }
        let x: u64 = position.0 as u64 * tw as u64 / w as u64;
        let y: u64 = position.1 as u64 * th as u64 / h as u64;
        Some((x as u32, y as u32))
    }

    /// Does nothing: all per-frame state changes come through `draw`,
    /// `clear` and `resize`.
    pub fn update(&mut self)
        ensures
            *final(self) == *old(self),
    {
    }

    /// Sets every framebuffer pixel to opaque black.
    pub fn clear(&mut self)
        requires
            old(self).wf(),
        ensures
            final(self).wf(),
            final(self).spec_size() == old(self).spec_size(),
            final(self).spec_texture().spec_width() == old(self).spec_texture().spec_width(),
            final(self).spec_texture().spec_height() == old(self).spec_texture().spec_height(),
            final(self).spec_texture()@ == cleared(old(self).spec_texture()@.len()),
    {
        self.texture.clear();
    }

    /// Blits `data`, an image of `size.0` by `size.1` pixels, into the
    /// framebuffer at `position`, clipped to the framebuffer's edges.
    pub fn draw(&mut self, position: (u32, u32), data: &[u8], size: (u32, u32))
        requires
            old(self).wf(),
        ensures
            final(self).wf(),
            final(self).spec_size() == old(self).spec_size(),
            final(self).spec_texture().spec_width() == old(self).spec_texture().spec_width(),
            final(self).spec_texture().spec_height() == old(self).spec_texture().spec_height(),
            final(self).spec_texture()@ == blitted(
                old(self).spec_texture()@,
                old(self).spec_texture().spec_width() as int,
                position,
                data@,
                size,
            ),
    {
        self.texture.blit(position, data, size);
    }
}

} // verus!
