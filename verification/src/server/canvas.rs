//! An RGBA pixel buffer laid out as `image::RgbaImage` lays out its raw
//! bytes: rows from top to bottom, each row's pixels from left to right, four
//! bytes per pixel (red, green, blue, alpha).
//!
//! Compositing one image over another is done by the `image` crate itself;
//! everything else here is plain byte arithmetic with an exact model.

use vstd::prelude::*;

verus! {

/// Index of the first byte of pixel `(x, y)` in a buffer `w` pixels wide.
pub open spec fn pix(w: int, x: int, y: int) -> int {
    (y * w + x) * 4
}

/// `n` pixels, every one of colour `px`.
pub open spec fn filled(n: nat, px: Seq<u8>) -> Seq<u8> {
    Seq::new(n * 4, |i: int| px[i % 4])
}

/// The buffer with pixel `(x, y)` set to `px`.
pub open spec fn with_pixel(raw: Seq<u8>, w: int, x: int, y: int, px: Seq<u8>) -> Seq<u8> {
    let p = pix(w, x, y);
    Seq::new(raw.len(), |i: int| if p <= i < p + 4 { px[i - p] } else { raw[i] })
}

/// The four bytes of pixel `(x, y)`.
pub open spec fn pixel_at(raw: Seq<u8>, w: int, x: int, y: int) -> Seq<u8> {
    raw.subrange(pix(w, x, y), pix(w, x, y) + 4)
}

/// Every pixel of a `w × h` buffer has its four bytes inside the buffer.
pub proof fn lemma_pix_bounds(w: int, h: int, x: int, y: int)
    requires
        0 <= x < w,
        0 <= y < h,
    ensures
        0 <= pix(w, x, y),
        pix(w, x, y) + 4 <= w * h * 4,
{
    assert(0 <= y * w + x && y * w + x + 1 <= w * h) by (nonlinear_arith)
        requires
            0 <= x < w,
            0 <= y < h,
    ;
}

/// Distinct pixels of a buffer `w` pixels wide occupy disjoint bytes.
pub proof fn lemma_pix_disjoint(w: int, x1: int, y1: int, x2: int, y2: int)
    requires
        0 <= x1 < w,
        0 <= x2 < w,
        0 <= y1,
        0 <= y2,
        x1 != x2 || y1 != y2,
    ensures
        pix(w, x1, y1) + 4 <= pix(w, x2, y2) || pix(w, x2, y2) + 4 <= pix(w, x1, y1),
{
    if y1 < y2 {
        assert(y1 * w + x1 < y2 * w + x2) by (nonlinear_arith)
            requires
                0 <= x1 < w,
                0 <= x2,
                y1 < y2,
        ;
    } else if y2 < y1 {
        assert(y2 * w + x2 < y1 * w + x1) by (nonlinear_arith)
            requires
                0 <= x2 < w,
                0 <= x1,
                y2 < y1,
        ;
    }
}

/// Every pixel of a filled buffer has the fill colour.
pub proof fn lemma_filled_pixel(px: Seq<u8>, w: int, h: int, x: int, y: int)
    requires
        px.len() == 4,
        0 <= x < w,
        0 <= y < h,
    ensures
        pixel_at(filled((w * h) as nat, px), w, x, y) == px,
{
    lemma_pix_bounds(w, h, x, y);
    let k = y * w + x;
    let p = pix(w, x, y);
    assert(p == 4 * k);
    assert((4 * k) % 4 == 0 && (4 * k + 1) % 4 == 1 && (4 * k + 2) % 4 == 2 && (4 * k + 3) % 4 == 3)
        by (nonlinear_arith)
        requires
            k >= 0,
    ;
    assert(pixel_at(filled((w * h) as nat, px), w, x, y) =~= px);
}

/// What `image::imageops::overlay` leaves in a `bw × bh` bottom buffer after
/// drawing the `tw × th` top buffer with its top-left corner at `(x, y)`:
/// each covered bottom pixel alpha-blended with the top pixel over it.
pub uninterp spec fn overlay_pixels(
    bottom: Seq<u8>,
    bw: u32,
    bh: u32,
    top: Seq<u8>,
    tw: u32,
    th: u32,
    x: int,
    y: int,
) -> Seq<u8>;

/// Calls `image::imageops::overlay` on the two buffers viewed as
/// `image::RgbaImage`s. Trusted: the result is the named `overlay_pixels` of
/// the arguments, and has the bottom buffer's length (the crate never resizes
/// the bottom image). Nothing is stated of the blended values themselves.
#[verifier::external_body]
fn overlay_raw(bottom: Vec<u8>, bw: u32, bh: u32, top: &[u8], tw: u32, th: u32, x: i64, y: i64) -> (r:
    Vec<u8>)
    requires
        bottom@.len() == bw * bh * 4,
        top@.len() == tw * th * 4,
    ensures
        r@ == overlay_pixels(bottom@, bw, bh, top@, tw, th, x as int, y as int),
        r@.len() == bottom@.len(),
{
    let mut b = image::RgbaImage::from_raw(bw, bh, bottom).unwrap();
    let t = image::ImageBuffer::<image::Rgba<u8>, &[u8]>::from_raw(tw, th, top).unwrap();
    image::imageops::overlay(&mut b, &t, x, y);
    b.into_raw()
}

/// An RGBA image held as its raw bytes.
#[derive(Debug)]
pub struct Canvas {
    width: u32,
    height: u32,
    data: Vec<u8>,
}

impl Canvas {
    #[verifier::type_invariant]
    closed spec fn sized(self) -> bool {
        self.data@.len() == self.width * self.height * 4
    }

    /// Width in pixels.
    pub closed spec fn w(self) -> nat {
        self.width as nat
    }

    /// Height in pixels.
    pub closed spec fn h(self) -> nat {
        self.height as nat
    }

    /// The raw bytes, row-major, four per pixel.
    pub closed spec fn raw(self) -> Seq<u8> {
        self.data@
    }

    /// A `width × height` image with every pixel `px`.
    pub fn from_pixel(width: u32, height: u32, px: [u8; 4]) -> (r: Canvas)
        requires
            width * height * 4 <= usize::MAX,
        ensures
            r.w() == width,
            r.h() == height,
            r.raw() == filled((width * height) as nat, px@),
    {
        let n: usize = (width as usize) * (height as usize);
        let mut data: Vec<u8> = Vec::new();
        let mut i: usize = 0;
        while i < n
            invariant
                i <= n,
                n == width * height,
                data@ == filled(i as nat, px@),
            decreases n - i,
        {
            data.push(px[0]);
            data.push(px[1]);
            data.push(px[2]);
            data.push(px[3]);
            proof {
                let ghost k = i as int;
                assert forall|j: int| 0 <= j < (k + 1) * 4 implies #[trigger] data@[j] == px@[j
                    % 4] by {
                    if j >= k * 4 {
                        assert(j % 4 == j - k * 4);
                    }
                }
            }
            i = i + 1;
            assert(data@ =~= filled(i as nat, px@));
        }
        Canvas { width, height, data }
    }

    /// Wrap raw bytes as a `width × height` image; `None` unless there are
    /// exactly four bytes per pixel.
    pub fn from_raw(width: u32, height: u32, data: Vec<u8>) -> (r: Option<Canvas>)
        ensures
            match r {
                Some(c) => data@.len() == width * height * 4 && c.w() == width && c.h() == height
                    && c.raw() == data@,
                None => data@.len() != width * height * 4,
            },
    {
        let len = data.len();
        assert((width as u64) * (height as u64) <= u64::MAX) by (nonlinear_arith);
        let n: u64 = (width as u64) * (height as u64);
        if n > (usize::MAX as u64) / 4 {
            assert(len < n * 4);
            return None;
        }
        if data.len() != (n as usize) * 4 {
            return None;
        }
        Some(Canvas { width, height, data })
    }

    pub fn width(&self) -> (r: u32)
        ensures
            r == self.w(),
            self.raw().len() == self.w() * self.h() * 4,
    {
        proof {
            use_type_invariant(self);
        }
        self.width
    }

    pub fn height(&self) -> (r: u32)
        ensures
            r == self.h(),
            self.raw().len() == self.w() * self.h() * 4,
    {
        proof {
            use_type_invariant(self);
        }
        self.height
    }

    pub fn dimensions(&self) -> (r: (u32, u32))
        ensures
            r.0 == self.w(),
            r.1 == self.h(),
            self.raw().len() == self.w() * self.h() * 4,
    {
        proof {
            use_type_invariant(self);
        }
        (self.width, self.height)
    }

    /// Byte offset of pixel `(x, y)`.
    fn offset(&self, x: u32, y: u32) -> (r: usize)
        requires
            x < self.w(),
            y < self.h(),
        ensures
            r == pix(self.w() as int, x as int, y as int),
            r + 4 <= self.raw().len(),
    {
        proof {
            use_type_invariant(self);
            lemma_pix_bounds(self.w() as int, self.h() as int, x as int, y as int);
        }
        let _len = self.data.len();
        let row = (y as usize) * (self.width as usize);
        (row + x as usize) * 4
    }

    /// The pixel at `(x, y)`.
    pub fn get_pixel(&self, x: u32, y: u32) -> (r: [u8; 4])
        requires
            x < self.w(),
            y < self.h(),
        ensures
            r@ == pixel_at(self.raw(), self.w() as int, x as int, y as int),
    {
        let p = self.offset(x, y);
        let r = [self.data[p], self.data[p + 1], self.data[p + 2], self.data[p + 3]];
        assert(r@ =~= pixel_at(self.raw(), self.w() as int, x as int, y as int));
        r
    }

    /// Set the pixel at `(x, y)`.
    pub fn put_pixel(&mut self, x: u32, y: u32, px: [u8; 4])
        requires
            x < old(self).w(),
            y < old(self).h(),
        ensures
            final(self).w() == old(self).w(),
            final(self).h() == old(self).h(),
            final(self).raw() == with_pixel(
                old(self).raw(),
                old(self).w() as int,
                x as int,
                y as int,
                px@,
            ),
    {
        proof {
            use_type_invariant(&*self);
        }
        let p = self.offset(x, y);
        self.data[p] = px[0];
        self.data[p + 1] = px[1];
        self.data[p + 2] = px[2];
        self.data[p + 3] = px[3];
        assert(self.data@ =~= with_pixel(old(self).raw(), old(self).w() as int, x as int, y as int, px@));
    }

    /// Draw `top` over this image with its top-left corner at `(x, y)`,
    /// alpha-blending each covered pixel (`image::imageops::overlay`).
    pub fn overlay(&mut self, top: &Canvas, x: i64, y: i64)
        ensures
            final(self).w() == old(self).w(),
            final(self).h() == old(self).h(),
            final(self).raw() == overlay_pixels(
                old(self).raw(),
                old(self).w() as u32,
                old(self).h() as u32,
                top.raw(),
                top.w() as u32,
                top.h() as u32,
                x as int,
                y as int,
            ),
    {
        proof {
            use_type_invariant(&*self);
            use_type_invariant(top);
        }
        let mut taken = Canvas { width: 0, height: 0, data: Vec::new() };
        std::mem::swap(&mut taken, self);
        let Canvas { width, height, data } = taken;
        let data = overlay_raw(data, width, height, top.data.as_slice(), top.width, top.height, x, y);
        *self = Canvas { width, height, data };
    }

    /// The raw bytes, row-major, four per pixel.
    pub fn into_raw(self) -> (r: Vec<u8>)
        ensures
            r@ == self.raw(),
    {
        self.data
    }
}

} // verus!
