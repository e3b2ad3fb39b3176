use vstd::prelude::*;

verus! {

/// The CPU side of a texture: a row-major RGBA image of fixed size, four
/// bytes (R, G, B, A) per pixel.
pub struct Texture {
    width: u32,
    height: u32,
    pixels: Vec<u8>,
}

/// The bytes of an image of `len` bytes in which every pixel is opaque black.
pub open spec fn cleared(len: nat) -> Seq<u8> {
    Seq::new(len, |i: int| if i % 4 == 3 { 255u8 } else { 0u8 })
}

/// Position in `source` of the byte that a blit of `source` (row-major,
/// `size.0` by `size.1` pixels) at `position` writes over byte `i` of an image
/// `width` pixels wide; `None` where byte `i` lies outside the blitted
/// rectangle or its source pixel is not wholly present in `source`.
pub open spec fn blit_source(
    width: int,
    position: (u32, u32),
    source_len: int,
    size: (u32, u32),
    i: int,
) -> Option<int> {
    let x = (i / 4) % width - position.0;
    let y = (i / 4) / width - position.1;
    let p = y * size.0 + x;
    if 0 <= x < size.0 && 0 <= y < size.1 && (p + 1) * 4 <= source_len {
        Some(p * 4 + i % 4)
    } else {
        None
    }
}

/// The bytes of an image `width` pixels wide after blitting `source` at
/// `position`: each byte that has a source byte takes it, every other byte
/// keeps its value. Pixels past the image's right or bottom edge simply do
/// not exist, so they are never written.
pub open spec fn blitted(
    pixels: Seq<u8>,
    width: int,
    position: (u32, u32),
    source: Seq<u8>,
    size: (u32, u32),
) -> Seq<u8> {
    Seq::new(
        pixels.len(),
        |i: int|
            match blit_source(width, position, source.len() as int, size, i) {
                Some(s) => source[s],
                None => pixels[i],
            },
    )
}

/// `blitted` restricted to the source rows before `row` and, on `row`
/// itself, to the columns before `col`.
spec fn blitted_upto(
    pixels: Seq<u8>,
    width: int,
    position: (u32, u32),
    source: Seq<u8>,
    size: (u32, u32),
    row: int,
    col: int,
) -> Seq<u8> {
    Seq::new(
        pixels.len(),
        |i: int|
            {
                let x = (i / 4) % width - position.0;
                let y = (i / 4) / width - position.1;
                match blit_source(width, position, source.len() as int, size, i) {
                    Some(s) => if y < row || (y == row && x < col) {
                        source[s]
                    } else {
                        pixels[i]
                    },
                    None => pixels[i],
                }
            },
    )
}

/// Byte `i` of an image `w` pixels wide and `h` high lies in a pixel of the
/// image.
pub proof fn lemma_pixel_coords(w: int, h: int, i: int)
    requires
        0 <= w,
        0 <= h,
        0 <= i < w * h * 4,
    ensures
        w > 0,
        0 <= (i / 4) % w < w,
        0 <= (i / 4) / w < h,
        i == ((i / 4) / w * w + (i / 4) % w) * 4 + i % 4,
        0 <= i % 4 < 4,
{
    if w == 0 {
        assert(w * h * 4 == 0);
    }
    let p = i / 4;
    assert(p < w * h) by (nonlinear_arith)
        requires
            i < w * h * 4,
            p == i / 4,
            0 <= i,
    ;
    vstd::arithmetic::div_mod::lemma_fundamental_div_mod(p, w);
    vstd::arithmetic::div_mod::lemma_fundamental_div_mod(i, 4);
    let q = p / w;
    let r = p % w;
    assert(q < h) by (nonlinear_arith)
        requires
            p == w * q + r,
            0 <= r < w,
            p < w * h,
    ;
    assert(q >= 0) by (nonlinear_arith)
        requires
            p == w * q + r,
            0 <= r < w,
            p >= 0,
    ;
    assert(i == (q * w + r) * 4 + i % 4) by (nonlinear_arith)
        requires
            p == w * q + r,
            i == 4 * p + i % 4,
    ;
}

/// Byte `i` belongs to pixel (`x`, `y`) of an image `w` pixels wide exactly
/// when it is one of the four bytes that start at `(y * w + x) * 4`.
proof fn lemma_pixel_block(w: int, x: int, y: int, i: int)
    requires
        0 < w,
        0 <= x < w,
        0 <= y,
        0 <= i,
    ensures
        ((i / 4) % w == x && (i / 4) / w == y) <==> ((y * w + x) * 4 <= i < (y * w + x) * 4 + 4),
        (y * w + x) * 4 <= i < (y * w + x) * 4 + 4 ==> i % 4 == i - (y * w + x) * 4,
{
    let p = i / 4;
    let q = y * w + x;
    vstd::arithmetic::div_mod::lemma_fundamental_div_mod(i, 4);
    vstd::arithmetic::div_mod::lemma_fundamental_div_mod(p, w);
    if p % w == x && p / w == y {
        assert(p == q) by (nonlinear_arith)
            requires
                p == w * (p / w) + p % w,
                p % w == x,
                p / w == y,
                q == y * w + x,
        ;
    }
    if q * 4 <= i < q * 4 + 4 {
        vstd::arithmetic::div_mod::lemma_fundamental_div_mod_converse(i, 4, q, i - q * 4);
        vstd::arithmetic::div_mod::lemma_fundamental_div_mod_converse(p, w, y, x);
    }
}

/// The copy that uploads a whole image to the GPU texture: the data starts at
/// offset 0, holds `bytes_per_row` bytes per row and `rows_per_image` rows,
/// and the region copied is `width` by `height` texels from the origin.
#[derive(Clone, Copy, Debug, PartialEq, Eq, Structural)]
pub struct UploadLayout {
    pub width: u32,
    pub height: u32,
    pub bytes_per_row: u32,
    pub rows_per_image: u32,
}

/// The bytes of an RGBA texture `width` texels wide after copying `data`,
/// laid out as `layout` says, into it: texel (x, y) inside the copy region
/// takes the four bytes at `y * bytes_per_row + x * 4`; the rest keep their
/// value.
pub open spec fn uploaded(texels: Seq<u8>, width: int, data: Seq<u8>, layout: UploadLayout) -> Seq<u8> {
    Seq::new(
        texels.len(),
        |i: int|
            {
                let x = (i / 4) % width;
                let y = (i / 4) / width;
                if x < layout.width && y < layout.height && y < layout.rows_per_image {
                    data[y * layout.bytes_per_row + x * 4 + i % 4]
                } else {
                    texels[i]
                }
            },
    )
}

impl View for Texture {
    type V = Seq<u8>;

    closed spec fn view(&self) -> Seq<u8> {
        self.pixels@
    }
}

impl Texture {
    /// Width of the image, in pixels.
    pub closed spec fn spec_width(&self) -> nat {
        self.width as nat
    }

    /// Height of the image, in pixels.
    pub closed spec fn spec_height(&self) -> nat {
        self.height as nat
    }

    /// The byte buffer holds exactly four bytes per pixel, and a row of it
    /// measured in bytes fits the `u32` stride of a GPU copy.
    pub closed spec fn wf(&self) -> bool {
        &&& self.pixels@.len() == self.width * self.height * 4
        &&& 4 * self.width <= u32::MAX
    }

    /// The copy layout that uploads this whole image.
    pub open spec fn spec_upload_layout(&self) -> UploadLayout {
        UploadLayout {
            width: self.spec_width() as u32,
            height: self.spec_height() as u32,
            bytes_per_row: (4 * self.spec_width()) as u32,
            rows_per_image: self.spec_height() as u32,
        }
    }

    /// A zero-filled image of `size.0` by `size.1` pixels.
    pub fn new(size: (u32, u32)) -> (r: Texture)
        requires
            size.0 * size.1 * 4 <= usize::MAX,
            4 * size.0 <= u32::MAX,
        ensures
            r.wf(),
            r.spec_width() == size.0,
            r.spec_height() == size.1,
            r@ == Seq::new((size.0 * size.1 * 4) as nat, |i: int| 0u8),
    {
        let n: usize = size.0 as usize * size.1 as usize * 4;
        let mut pixels: Vec<u8> = Vec::new();
        while pixels.len() < n
            invariant
                pixels.len() <= n,
                forall|j: int| 0 <= j < pixels.len() ==> pixels@[j] == 0u8,
            decreases n - pixels.len(),
        {
            pixels.push(0u8);
        }
        let r = Texture { width: size.0, height: size.1, pixels };
        assert(r@ =~= Seq::new((size.0 * size.1 * 4) as nat, |i: int| 0u8));
        r
    }

    /// The image size as (width, height) in pixels.
    pub fn size(&self) -> (r: (u32, u32))
        ensures
            r.0 == self.spec_width(),
            r.1 == self.spec_height(),
    {
        (self.width, self.height)
    }

    /// The layout of a GPU copy that takes the whole image, its rows packed
    /// at four bytes per pixel.
    pub fn upload_layout(&self) -> (r: UploadLayout)
        requires
            self.wf(),
        ensures
            r == self.spec_upload_layout(),
            r.width == self.spec_width(),
            r.height == self.spec_height(),
            r.bytes_per_row == 4 * self.spec_width(),
            r.rows_per_image == self.spec_height(),
    {
        UploadLayout {
            width: self.width,
            height: self.height,
            bytes_per_row: 4 * self.width,
            rows_per_image: self.height,
        }
    }

    /// The image bytes, row-major, four per pixel.
    pub fn pixels(&self) -> (r: &[u8])
        ensures
            r@ == self@,
    {
        self.pixels.as_slice()
    }

    /// Sets every pixel to opaque black.
    pub fn clear(&mut self)
        requires
            old(self).wf(),
        ensures
            final(self).wf(),
            final(self).spec_width() == old(self).spec_width(),
            final(self).spec_height() == old(self).spec_height(),
            final(self)@ == cleared(old(self)@.len()),
    {
        let n = self.pixels.len();
        let mut i: usize = 0;
        while i < n
            invariant
                i <= n,
                self.width == old(self).width,
                self.height == old(self).height,
                self.pixels@.len() == n,
                n == old(self).pixels@.len(),
                old(self).wf(),
                forall|j: int| 0 <= j < i ==> self.pixels@[j] == cleared(n as nat)[j],
            decreases n - i,
        {
            let b: u8 = if i % 4 == 3 { 255 } else { 0 };
            self.pixels.set(i, b);
            i = i + 1;
        }
        assert(self@ =~= cleared(n as nat));
    }
    /// Copies the `size.0` by `size.1` pixel image `source` (row-major, four
    /// bytes per pixel) into this one with its top-left corner at `position`.
    /// Source pixels that would land past the right or bottom edge are
    /// dropped, as are those whose four bytes `source` does not hold.
    pub fn blit(&mut self, position: (u32, u32), source: &[u8], size: (u32, u32))
        requires
            old(self).wf(),
        ensures
            final(self).wf(),
            final(self).spec_width() == old(self).spec_width(),
            final(self).spec_height() == old(self).spec_height(),
            final(self)@ == blitted(
                old(self)@,
                old(self).spec_width() as int,
                position,
                source@,
                size,
            ),
    {
        let w = self.width;
        let h = self.height;
        let rows: u32 = if position.1 >= h {
            0
        } else if size.1 < h - position.1 {
            size.1
        } else {
            h - position.1
        };
        let cols: u32 = if position.0 >= w {
            0
        } else if size.0 < w - position.0 {
            size.0
        } else {
            w - position.0
        };
        let available: usize = source.len() / 4;
        let ghost base = old(self)@;
        let mut row: u32 = 0;
        while row < rows
            invariant
                row <= rows,
                rows <= size.1,
                rows > 0 ==> position.1 + rows <= h,
                cols <= size.0,
                cols > 0 ==> position.0 + cols <= w,
                cols == size.0 || position.0 + cols >= w,
                rows == size.1 || position.1 + rows >= h,
                w == old(self).width,
                h == old(self).height,
                self.width == w,
                self.height == h,
                self.wf(),
                base == old(self)@,
                available == source@.len() / 4,
                self@ == blitted_upto(base, w as int, position, source@, size, row as int, 0),
            decreases rows - row,
        {
            let mut col: u32 = 0;
            while col < cols
                invariant
                    row < rows,
                    col <= cols,
                    rows <= size.1,
                    position.1 + rows <= h,
                    cols <= size.0,
                    cols > 0 ==> position.0 + cols <= w,
                    cols == size.0 || position.0 + cols >= w,
                    self.width == w,
                    self.height == h,
                    self.wf(),
                    available == source@.len() / 4,
                    self@ == blitted_upto(
                        base,
                        w as int,
                        position,
                        source@,
                        size,
                        row as int,
                        col as int,
                    ),
                decreases cols - col,
            {
                let ghost before = self@;
                assert((row as int) * (size.0 as int) + (col as int) < u64::MAX) by (nonlinear_arith)
                    requires
                        row < size.1,
                        col < size.0,
                        size.0 <= u32::MAX,
                        size.1 <= u32::MAX,
                ;
                let src: u64 = row as u64 * size.0 as u64 + col as u64;
                let dx: u32 = position.0 + col;
                let dy: u32 = position.1 + row;
                if src < available as u64 {
                    assert(src * 4 + 4 <= source@.len()) by (nonlinear_arith)
                        requires
                            src < available,
                            available == source@.len() / 4,
                    ;
                    let src_len: usize = source.len();
                    assert(src * 4 + 4 <= src_len);
                    let s: usize = src as usize * 4;
                    assert((dy as int * w as int + dx as int) * 4 + 4 <= (w as int) * (h as int) * 4)
                        by (nonlinear_arith)
                        requires
                            dy < h,
                            dx < w,
                    ;
                    assert(dy as int * w as int + dx as int <= (w as int) * (h as int)) by (nonlinear_arith)
                        requires
                            dy < h,
                            dx < w,
                    ;
                    let total: usize = self.pixels.len();
                    assert(dy as int * w as int + dx as int <= total);
                    let d: usize = (dy as usize * w as usize + dx as usize) * 4;
                    self.pixels.set(d, source[s]);
                    self.pixels.set(d + 1, source[s + 1]);
                    self.pixels.set(d + 2, source[s + 2]);
                    self.pixels.set(d + 3, source[s + 3]);
                }
                proof {
                    let next = blitted_upto(
                        base,
                        w as int,
                        position,
                        source@,
                        size,
                        row as int,
                        col + 1,
                    );
                    assert forall|i: int| 0 <= i < self@.len() implies self@[i] == next[i] by {
                        lemma_pixel_coords(w as int, h as int, i);
                        lemma_pixel_block(w as int, dx as int, dy as int, i);
                    }
                    assert(self@ =~= next);
                }
                col = col + 1;
            }
            proof {
                let next = blitted_upto(
                    base,
                    w as int,
                    position,
                    source@,
                    size,
                    row + 1,
                    0,
                );
                assert forall|i: int| 0 <= i < self@.len() implies self@[i] == next[i] by {
                    lemma_pixel_coords(w as int, h as int, i);
                }
                assert(self@ =~= next);
            }
            row = row + 1;
        }
        proof {
            let full = blitted(base, w as int, position, source@, size);
            assert forall|i: int| 0 <= i < self@.len() implies self@[i] == full[i] by {
                lemma_pixel_coords(w as int, h as int, i);
            }
            assert(self@ =~= full);
        }
    }
}

/// A well-formed image holds four bytes per pixel, and a row of it in bytes
/// fits a `u32`.
pub proof fn lemma_wf_layout(t: Texture)
    requires
        t.wf(),
    ensures
        t@.len() == t.spec_width() * t.spec_height() * 4,
        4 * t.spec_width() <= u32::MAX,
{
}

/// A blit at the origin of a source exactly as large as the image replaces
/// the image with the source.
pub proof fn lemma_full_blit_copies_source(t: Texture, source: Seq<u8>)
    requires
        t.wf(),
        source.len() == t@.len(),
    ensures
        blitted(
            t@,
            t.spec_width() as int,
            (0, 0),
            source,
            (t.spec_width() as u32, t.spec_height() as u32),
        ) == source,
{
    let w = t.spec_width() as int;
    let h = t.spec_height() as int;
    let size = (t.spec_width() as u32, t.spec_height() as u32);
    let r = blitted(t@, w, (0, 0), source, size);
    assert forall|i: int| 0 <= i < r.len() implies r[i] == source[i] by {
        lemma_pixel_coords(w, h, i);
        let x = (i / 4) % w;
        let y = (i / 4) / w;
        assert((y * w + x + 1) * 4 <= w * h * 4) by (nonlinear_arith)
            requires
                0 <= x < w,
                0 <= y < h,
        ;
    }
    assert(r =~= source);
}

/// A blit writes, on each pixel (x, y) of the image and each channel c, the
/// matching byte of the source pixel (x - position.0, y - position.1) when
/// that pixel lies in the source rectangle and the source holds it; every
/// other byte keeps its value. Source pixels that would land outside the
/// image have no byte to write.
pub proof fn lemma_blit_by_pixel(
    t: Texture,
    position: (u32, u32),
    source: Seq<u8>,
    size: (u32, u32),
    x: int,
    y: int,
    c: int,
)
    requires
        t.wf(),
        0 <= x < t.spec_width(),
        0 <= y < t.spec_height(),
        0 <= c < 4,
    ensures
        ({
            let w = t.spec_width() as int;
            let r = blitted(t@, w, position, source, size);
            let i = (y * w + x) * 4 + c;
            let sx = x - position.0;
            let sy = y - position.1;
            let p = sy * size.0 + sx;
            &&& 0 <= i < t@.len()
            &&& r[i] == if 0 <= sx < size.0 && 0 <= sy < size.1 && (p + 1) * 4 <= source.len() {
                source[p * 4 + c]
            } else {
                t@[i]
            }
        }),
{
    let w = t.spec_width() as int;
    let h = t.spec_height() as int;
    let i = (y * w + x) * 4 + c;
    assert((y * w + x) * 4 + 4 <= w * h * 4) by (nonlinear_arith)
        requires
            0 <= x < w,
            0 <= y < h,
    ;
    lemma_pixel_block(w, x, y, i);
}

/// Uploading an image makes the GPU texture hold exactly its bytes, so a
/// second upload of the unchanged image leaves the texture as the first did.
pub proof fn lemma_upload_idempotent(t: Texture, texels: Seq<u8>)
    requires
        t.wf(),
        texels.len() == t@.len(),
    ensures
        uploaded(texels, t.spec_width() as int, t@, t.spec_upload_layout()) == t@,
        uploaded(
            uploaded(texels, t.spec_width() as int, t@, t.spec_upload_layout()),
            t.spec_width() as int,
            t@,
            t.spec_upload_layout(),
        ) == uploaded(texels, t.spec_width() as int, t@, t.spec_upload_layout()),
{
    let w = t.spec_width() as int;
    let h = t.spec_height() as int;
    let layout = t.spec_upload_layout();
    let once = uploaded(texels, w, t@, layout);
    assert forall|i: int| 0 <= i < once.len() implies once[i] == t@[i] by {
        lemma_pixel_coords(w, h, i);
        let x = (i / 4) % w;
        let y = (i / 4) / w;
        assert(y * (4 * w) + x * 4 + i % 4 == (y * w + x) * 4 + i % 4) by (nonlinear_arith);
    }
    assert(once =~= t@);
    let twice = uploaded(once, w, t@, layout);
    assert forall|i: int| 0 <= i < twice.len() implies twice[i] == t@[i] by {
        lemma_pixel_coords(w, h, i);
        let x = (i / 4) % w;
        let y = (i / 4) / w;
        assert(y * (4 * w) + x * 4 + i % 4 == (y * w + x) * 4 + i % 4) by (nonlinear_arith);
    }
    assert(twice =~= t@);
}

} // verus!
