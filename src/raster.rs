//! Byte quantisation of colour channels and the RGB8 frame buffer that a
//! render fills.
use vstd::prelude::*;
use vstd::arithmetic::div_mod::lemma_fundamental_div_mod;

verus! {

/// `v` saturated to the byte range `[0, 255]`.
pub open spec fn saturate_spec(v: int) -> u8 {
    if v < 0 {
        0
    } else if v > 255 {
        255
    } else {
        v as u8
    }
}

/// Converts a colour channel, already scaled to `[0, 255]` and floored, to a
/// byte: values below 0 become 0 and values above 255 become 255, so an
/// over-bright channel never wraps round to a dark one.
pub fn quantize_channel(v: i64) -> (r: u8)
    ensures
        r == saturate_spec(v as int),
{
    if v < 0 {
        0
    } else if v > 255 {
        255
    } else {
        v as u8
    }
}

/// Index of the first byte of pixel `(w, h)` in a row-major RGB8 buffer of
/// rows `width` pixels long.
pub open spec fn pixel_index(width: nat, w: nat, h: nat) -> nat {
    3 * (h * width + w)
}

/// The three bytes of pixel `(w, h)` in `bytes`.
pub open spec fn pixel_bytes(bytes: Seq<u8>, width: nat, w: nat, h: nat) -> Seq<u8> {
    let i = pixel_index(width, w, h) as int;
    bytes.subrange(i, i + 3)
}

/// `bytes` with pixel `(w, h)` set to `rgb`.
pub open spec fn with_pixel(bytes: Seq<u8>, width: nat, w: nat, h: nat, rgb: Seq<u8>) -> Seq<u8> {
    let i = pixel_index(width, w, h) as int;
    bytes.update(i, rgb[0]).update(i + 1, rgb[1]).update(i + 2, rgb[2])
}

/// A `width × height` RGB8 image: rows from top to bottom, pixels from left
/// to right, three bytes per pixel.
pub struct PixelBuffer {
    width: u32,
    height: u32,
    data: Vec<u8>,
}

impl PixelBuffer {
    pub closed spec fn spec_width(&self) -> nat {
        self.width as nat
    }

    pub closed spec fn spec_height(&self) -> nat {
        self.height as nat
    }

    /// The buffer's bytes.
    pub closed spec fn bytes(&self) -> Seq<u8> {
        self.data@
    }

    /// The buffer holds exactly three bytes for each pixel, and their number
    /// fits in memory.
    pub closed spec fn wf(&self) -> bool {
        &&& self.data@.len() == 3 * (self.width * self.height)
        &&& 3 * (self.width * self.height) <= usize::MAX
    }

    /// The three bytes of pixel `(w, h)`.
    pub open spec fn pixel(&self, w: nat, h: nat) -> Seq<u8> {
        pixel_bytes(self.bytes(), self.spec_width(), w, h)
    }

    /// A black image of the given size.
    pub fn new(width: u32, height: u32) -> (r: PixelBuffer)
        requires
            3 * (width * height) <= usize::MAX,
        ensures
            r.wf(),
            r.spec_width() == width,
            r.spec_height() == height,
            r.bytes().len() == 3 * (width * height),
            r.bytes() == Seq::new((3 * (width * height)) as nat, |i: int| 0u8),
    {
        let len: usize = 3 * ((width as usize) * (height as usize));
        let mut data: Vec<u8> = Vec::new();
        let mut i: usize = 0;
        while i < len
            invariant
                i <= len,
                data@ == Seq::new(i as nat, |k: int| 0u8),
            decreases len - i,
        {
            data.push(0);
            i = i + 1;
        }
        PixelBuffer { width, height, data }
    }

    pub fn width(&self) -> (r: u32)
        ensures
            r == self.spec_width(),
    {
        self.width
    }

    pub fn height(&self) -> (r: u32)
        ensures
            r == self.spec_height(),
    {
        self.height
    }

    /// Sets pixel `(w, h)` to `rgb`.
    pub fn put_pixel(&mut self, w: u32, h: u32, rgb: [u8; 3])
        requires
            old(self).wf(),
            w < old(self).spec_width(),
            h < old(self).spec_height(),
        ensures
            final(self).wf(),
            final(self).spec_width() == old(self).spec_width(),
            final(self).spec_height() == old(self).spec_height(),
            final(self).bytes().len() == old(self).bytes().len(),
            final(self).bytes() == with_pixel(
                old(self).bytes(),
                old(self).spec_width(),
                w as nat,
                h as nat,
                rgb@,
            ),
    {
        proof {
            lemma_pixel_in_buffer(self.width as nat, self.height as nat, w as nat, h as nat);
        }
        let i: usize = 3 * ((h as usize) * (self.width as usize) + (w as usize));
        self.data.set(i, rgb[0]);
        self.data.set(i + 1, rgb[1]);
        self.data.set(i + 2, rgb[2]);
    }

    /// The colour of pixel `(w, h)`.
    pub fn get_pixel(&self, w: u32, h: u32) -> (r: [u8; 3])
        requires
            self.wf(),
            w < self.spec_width(),
            h < self.spec_height(),
        ensures
            r@ == self.pixel(w as nat, h as nat),
    {
        proof {
            lemma_pixel_in_buffer(self.width as nat, self.height as nat, w as nat, h as nat);
        }
        let i: usize = 3 * ((h as usize) * (self.width as usize) + (w as usize));
        let r = [self.data[i], self.data[i + 1], self.data[i + 2]];
        assert(r@ =~= self.pixel(w as nat, h as nat));
        r
    }

    /// The buffer's bytes, row by row, ready for an image encoder: three for
    /// each of the `width * height` pixels.
    pub fn into_bytes(self) -> (r: Vec<u8>)
        ensures
            r@ == self.bytes(),
            self.wf() ==> r@.len() == 3 * (self.spec_width() * self.spec_height()),
    {
        self.data
    }
}

/// `shade` gave `rgb` for pixel `(w, h)` once: the colour that `render_frame`
/// stores there.
pub open spec fn shaded<F: Fn(u32, u32) -> [u8; 3]>(shade: F, w: u32, h: u32, rgb: Seq<u8>) -> bool {
    exists|c: [u8; 3]| c@ == rgb && #[trigger] call_ensures(shade, (w, h), c)
}

/// Renders a `width × height` frame: asks `shade` for the colour of every
/// pixel, rows from top to bottom and pixels from left to right, and stores
/// each colour at its pixel.
pub fn render_frame<F: Fn(u32, u32) -> [u8; 3]>(width: u32, height: u32, shade: F) -> (r: PixelBuffer)
    requires
        3 * (width * height) <= usize::MAX,
        forall|w: u32, h: u32| w < width && h < height ==> call_requires(shade, (w, h)),
    ensures
        r.wf(),
        r.spec_width() == width,
        r.spec_height() == height,
        r.bytes().len() == 3 * (width * height),
        forall|w: u32, h: u32|
            w < width && h < height ==> shaded(shade, w, h, #[trigger] r.pixel(w as nat, h as nat)),
{
    let mut buf = PixelBuffer::new(width, height);
    let mut h: u32 = 0;
    while h < height
        invariant
            h <= height,
            3 * (width * height) <= usize::MAX,
            forall|w: u32, h: u32| w < width && h < height ==> call_requires(shade, (w, h)),
            buf.wf(),
            buf.spec_width() == width,
            buf.spec_height() == height,
            forall|w2: u32, h2: u32|
                w2 < width && h2 < h ==> shaded(shade, w2, h2, #[trigger] buf.pixel(w2 as nat, h2 as nat)),
        decreases height - h,
    {
        let mut w: u32 = 0;
        while w < width
            invariant
                h < height,
                w <= width,
                3 * (width * height) <= usize::MAX,
                forall|w: u32, h: u32| w < width && h < height ==> call_requires(shade, (w, h)),
                buf.wf(),
                buf.spec_width() == width,
                buf.spec_height() == height,
                forall|w2: u32, h2: u32|
                    w2 < width && (h2 < h || (h2 == h && w2 < w)) ==> shaded(
                        shade,
                        w2,
                        h2,
                        #[trigger] buf.pixel(w2 as nat, h2 as nat),
                    ),
            decreases width - w,
        {
            let rgb = shade(w, h);
            let ghost prev = buf;
            let ghost before = buf.bytes();
            buf.put_pixel(w, h, rgb);
            assert forall|w2: u32, h2: u32|
                w2 < width && (h2 < h || (h2 == h && w2 <= w)) implies shaded(
                    shade,
                    w2,
                    h2,
                    #[trigger] buf.pixel(w2 as nat, h2 as nat),
                ) by {
                lemma_with_pixel_read_back(
                    before,
                    width as nat,
                    height as nat,
                    w as nat,
                    h as nat,
                    rgb@,
                    w2 as nat,
                    h2 as nat,
                );
                if w2 == w && h2 == h {
                    assert(call_ensures(shade, (w, h), rgb));
                } else {
                    assert(shaded(shade, w2, h2, prev.pixel(w2 as nat, h2 as nat)));
                }
            }
            w = w + 1;
        }
        h = h + 1;
    }
    buf
}

/// A frame rendered twice with shading that gives each pixel one colour,
/// the same both times, comes out byte for byte the same.
pub proof fn lemma_render_frame_reproducible<F: Fn(u32, u32) -> [u8; 3]>(
    width: u32,
    height: u32,
    shade1: F,
    shade2: F,
    a: PixelBuffer,
    b: PixelBuffer,
)
    requires
        forall|w: u32, h: u32, c1: [u8; 3], c2: [u8; 3]|
            w < width && h < height && call_ensures(shade1, (w, h), c1) && call_ensures(
                shade2,
                (w, h),
                c2,
            ) ==> c1 == c2,
        a.wf(),
        a.spec_width() == width,
        a.spec_height() == height,
        forall|w: u32, h: u32|
            w < width && h < height ==> shaded(shade1, w, h, #[trigger] a.pixel(w as nat, h as nat)),
        b.wf(),
        b.spec_width() == width,
        b.spec_height() == height,
        forall|w: u32, h: u32|
            w < width && h < height ==> shaded(shade2, w, h, #[trigger] b.pixel(w as nat, h as nat)),
    ensures
        a.bytes() == b.bytes(),
{
    let len = a.bytes().len();
    assert forall|k: int| 0 <= k < len implies a.bytes()[k] == b.bytes()[k] by {
        let wn = width as int;
        let p = k / 3;
        let c = k % 3;
        lemma_fundamental_div_mod(k, 3);
        assert(p < wn * height) by (nonlinear_arith)
            requires
                k == 3 * p + c,
                0 <= c < 3,
                k < 3 * (wn * height),
        ;
        assert(wn > 0) by (nonlinear_arith)
            requires
                0 <= p < wn * height,
                height >= 0,
        ;
        let w = p % wn;
        let h = p / wn;
        lemma_fundamental_div_mod(p, wn);
        assert(0 <= w < wn);
        assert(0 <= h < height) by (nonlinear_arith)
            requires
                p == wn * h + w,
                0 <= w < wn,
                0 <= p < wn * height,
        ;
        let wu = w as u32;
        let hu = h as u32;
        assert(pixel_index(width as nat, wu as nat, hu as nat) == 3 * p) by (nonlinear_arith)
            requires
                p == wn * h + w,
                wu == w,
                hu == h,
                wn == width,
        ;
        lemma_pixel_in_buffer(width as nat, height as nat, wu as nat, hu as nat);
        assert(shaded(shade1, wu, hu, a.pixel(wu as nat, hu as nat)));
        assert(shaded(shade2, wu, hu, b.pixel(wu as nat, hu as nat)));
        let c1 = choose|c1: [u8; 3]| c1@ == a.pixel(wu as nat, hu as nat) && call_ensures(shade1, (wu, hu), c1);
        let c2 = choose|c2: [u8; 3]| c2@ == b.pixel(wu as nat, hu as nat) && call_ensures(shade2, (wu, hu), c2);
        assert(c1 == c2);
        assert(a.pixel(wu as nat, hu as nat)[c] == a.bytes()[k]);
        assert(b.pixel(wu as nat, hu as nat)[c] == b.bytes()[k]);
    }
    assert(a.bytes() =~= b.bytes());
}

/// The three bytes of a pixel inside the image lie inside the buffer.
pub proof fn lemma_pixel_in_buffer(width: nat, height: nat, w: nat, h: nat)
    requires
        w < width,
        h < height,
    ensures
        pixel_index(width, w, h) + 3 <= 3 * (width * height),
{
    assert(h * width + w + 1 <= width * height) by (nonlinear_arith)
        requires
            w < width,
            h < height,
    {
        assert(h * width + w + 1 <= h * width + width);
        assert(h * width + width == (h + 1) * width);
        assert((h + 1) * width <= height * width);
    }
}

/// Setting a pixel and reading it back gives the colour set, and every other
/// pixel of the image keeps its bytes.
pub proof fn lemma_with_pixel_read_back(
    bytes: Seq<u8>,
    width: nat,
    height: nat,
    w: nat,
    h: nat,
    rgb: Seq<u8>,
    w2: nat,
    h2: nat,
)
    requires
        bytes.len() == 3 * (width * height),
        rgb.len() == 3,
        w < width,
        h < height,
        w2 < width,
        h2 < height,
    ensures
        with_pixel(bytes, width, w, h, rgb).len() == bytes.len(),
        pixel_bytes(with_pixel(bytes, width, w, h, rgb), width, w2, h2) == if w2 == w && h2 == h {
            rgb
        } else {
            pixel_bytes(bytes, width, w2, h2)
        },
{
    lemma_pixel_in_buffer(width, height, w, h);
    lemma_pixel_in_buffer(width, height, w2, h2);
    let i = pixel_index(width, w, h) as int;
    let i2 = pixel_index(width, w2, h2) as int;
    let after = with_pixel(bytes, width, w, h, rgb);
    if w2 == w && h2 == h {
        assert(pixel_bytes(after, width, w2, h2) =~= rgb);
    } else {
        assert(h2 * width + w2 != h * width + w) by (nonlinear_arith)
            requires
                w < width,
                w2 < width,
                !(w2 == w && h2 == h),
        {
            if h2 == h {
            } else if h2 < h {
                assert(h2 * width + w2 < (h2 + 1) * width);
                assert((h2 + 1) * width <= h * width);
            } else {
                assert(h * width + w < (h + 1) * width);
                assert((h + 1) * width <= h2 * width);
            }
        }
        assert(i2 + 3 <= i || i + 3 <= i2);
        assert(pixel_bytes(after, width, w2, h2) =~= pixel_bytes(bytes, width, w2, h2));
    }
}

} // verus!
