//! A software canvas: an RGBA8 pixel buffer with bounds-checked pixel access
//! and the packing the platform window surfaces expect.
use vstd::prelude::*;

verus! {

/// An RGBA colour with straight alpha.
#[derive(Clone, Copy, Debug, PartialEq, Eq, Structural)]
pub struct Color {
    pub r: u8,
    pub g: u8,
    pub b: u8,
    pub a: u8,
}

impl Color {
    pub fn rgba(r: u8, g: u8, b: u8, a: u8) -> (c: Color)
        ensures
            c == (Color { r, g, b, a }),
    {
        Color { r, g, b, a }
    }

    /// An opaque colour.
    pub fn rgb(r: u8, g: u8, b: u8) -> (c: Color)
        ensures
            c == (Color { r, g, b, a: 255 }),
    {
        Color { r, g, b, a: 255 }
    }

    /// Fully transparent black.
    pub fn transparent() -> (c: Color)
        ensures
            c == transparent_color(),
    {
        Color { r: 0, g: 0, b: 0, a: 0 }
    }
}

pub open spec fn transparent_color() -> Color {
    Color { r: 0, g: 0, b: 0, a: 0 }
}

/// Channel `k` of a colour in RGBA order.
pub open spec fn channel(color: Color, k: int) -> u8 {
    if k == 0 {
        color.r
    } else if k == 1 {
        color.g
    } else if k == 2 {
        color.b
    } else {
        color.a
    }
}

/// A canvas of `width` by `height` pixels, `width * height * 4` bytes in
/// RGBA order, row by row.
pub struct Canvas {
    width: u32,
    height: u32,
    pixels: Vec<u8>,
}

pub struct CanvasView {
    pub width: u32,
    pub height: u32,
    pub pixels: Seq<u8>,
}

impl CanvasView {
    /// The buffer holds exactly four bytes per pixel.
    pub open spec fn well_formed(self) -> bool {
        self.pixels.len() == self.width * self.height * 4
    }

    /// Is `(x, y)` on the canvas?
    pub open spec fn contains(self, x: u32, y: u32) -> bool {
        x < self.width && y < self.height
    }

    /// The first byte of pixel `(x, y)`.
    pub open spec fn offset(self, x: u32, y: u32) -> int {
        (y * self.width + x) * 4
    }

    /// The canvas with `(x, y)` painted `color`; unchanged for a point off the
    /// canvas.
    pub open spec fn with_pixel(self, x: u32, y: u32, color: Color) -> CanvasView {
        if self.contains(x, y) {
            let i = self.offset(x, y);
            CanvasView {
                width: self.width,
                height: self.height,
                pixels: self.pixels.update(i, color.r).update(i + 1, color.g).update(
                    i + 2,
                    color.b,
                ).update(i + 3, color.a),
            }
        } else {
            self
        }
    }

    /// The colour at `(x, y)`; transparent off the canvas.
    pub open spec fn pixel_at(self, x: u32, y: u32) -> Color {
        if self.contains(x, y) {
            let i = self.offset(x, y);
            Color {
                r: self.pixels[i],
                g: self.pixels[i + 1],
                b: self.pixels[i + 2],
                a: self.pixels[i + 3],
            }
        } else {
            transparent_color()
        }
    }
}

impl View for Canvas {
    type V = CanvasView;

    closed spec fn view(&self) -> CanvasView {
        CanvasView { width: self.width, height: self.height, pixels: self.pixels@ }
    }
}

/// `0xAARRGGBB` for one colour.
pub open spec fn argb(r: u8, g: u8, b: u8, a: u8) -> u32 {
    (a * 0x1000000 + r * 0x10000 + g * 0x100 + b) as u32
}

/// Pixel `(x, y)` starts inside the buffer of a well-formed canvas, with room
/// for its four bytes.
proof fn lemma_offset_in_bounds(width: u32, height: u32, x: u32, y: u32)
    requires
        x < width,
        y < height,
    ensures
        0 <= (y * width + x) * 4,
        (y * width + x) * 4 + 4 <= width * height * 4,
{
    assert((y * width + x) * 4 + 4 <= width * height * 4) by (nonlinear_arith)
        requires
            x < width,
            y < height,
    ;
    assert(0 <= (y * width + x) * 4) by (nonlinear_arith);
}

impl Canvas {
    /// A transparent canvas.
    pub fn new(width: u32, height: u32) -> (canvas: Canvas)
        requires
            width * height * 4 <= usize::MAX,
        ensures
            canvas@.width == width,
            canvas@.height == height,
            canvas@.well_formed(),
            forall|i: int| 0 <= i < canvas@.pixels.len() ==> #[trigger] canvas@.pixels[i] == 0,
    {
        assert((width as int) * (height as int) * 4 <= usize::MAX);
        let count: usize = (width as usize) * (height as usize) * 4;
        let pixels = vec![0u8; count];
        Canvas { width, height, pixels }
    }

    /// A canvas painted all over in `color`.
    pub fn filled(width: u32, height: u32, color: Color) -> (canvas: Canvas)
        requires
            width * height * 4 <= usize::MAX,
        ensures
            canvas@.width == width,
            canvas@.height == height,
            canvas@.well_formed(),
            forall|i: int|
                0 <= i < canvas@.pixels.len() ==> #[trigger] canvas@.pixels[i] == channel(
                    color,
                    i % 4,
                ),
    {
        let mut canvas = Canvas::new(width, height);
        canvas.clear(color);
        canvas
    }

    pub fn width(&self) -> (r: u32)
        ensures
            r == self@.width,
    {
        self.width
    }

    pub fn height(&self) -> (r: u32)
        ensures
            r == self@.height,
    {
        self.height
    }

    pub fn pixels(&self) -> (r: &[u8])
        ensures
            r@ == self@.pixels,
    {
        self.pixels.as_slice()
    }

    /// The buffer, for writing pixels directly. Its length cannot change, so
    /// the canvas stays well formed.
    pub fn pixels_mut(&mut self) -> (r: &mut [u8])
        ensures
            r@ == old(self)@.pixels,
            final(self)@.pixels == final(r)@,
            final(self)@.width == old(self)@.width,
            final(self)@.height == old(self)@.height,
    {
        self.pixels.as_mut_slice()
    }

    /// Paints every pixel `color`.
    pub fn clear(&mut self, color: Color)
        requires
            old(self)@.well_formed(),
        ensures
            final(self)@.width == old(self)@.width,
            final(self)@.height == old(self)@.height,
            final(self)@.well_formed(),
            forall|i: int|
                0 <= i < final(self)@.pixels.len() ==> #[trigger] final(self)@.pixels[i] == channel(
                    color,
                    i % 4,
                ),
    {
        let n = self.pixels.len();
        let mut i: usize = 0;
        while i < n
            invariant
                n == self.pixels@.len(),
                self.width == old(self).width,
                self.height == old(self).height,
                n == self.width * self.height * 4,
                i <= n,
                i % 4 == 0,
                n % 4 == 0,
                forall|j: int| 0 <= j < i ==> #[trigger] self.pixels@[j] == channel(color, j % 4),
            decreases n - i,
        {
            self.pixels.set(i, color.r);
            self.pixels.set(i + 1, color.g);
            self.pixels.set(i + 2, color.b);
            self.pixels.set(i + 3, color.a);
            assert forall|j: int| 0 <= j < i + 4 implies #[trigger] self.pixels@[j] == channel(
                color,
                j % 4,
            ) by {
                if j >= i {
                    assert(j % 4 == j - i);
                }
            }
            i = i + 4;
        }
    }

    /// The first byte of pixel `(x, y)`.
    pub fn index(&self, x: u32, y: u32) -> (r: usize)
        requires
            self@.well_formed(),
            self@.contains(x, y),
        ensures
            r == self@.offset(x, y),
            r + 4 <= self@.pixels.len(),
    {
        let n = self.pixels.len();
        proof {
            lemma_offset_in_bounds(self.width, self.height, x, y);
            assert(y * self.width <= (y * self.width + x) * 4);
        }
        ((y as usize) * (self.width as usize) + x as usize) * 4
    }

    /// The colour at `(x, y)`, transparent off the canvas.
    pub fn pixel(&self, x: u32, y: u32) -> (c: Color)
        requires
            self@.well_formed(),
        ensures
            c == self@.pixel_at(x, y),
    {
        if x >= self.width || y >= self.height {
            return Color::transparent();
        }
        let i = self.index(x, y);
        Color::rgba(self.pixels[i], self.pixels[i + 1], self.pixels[i + 2], self.pixels[i + 3])
    }

    /// Writes `color` at `(x, y)`; a point off the canvas is ignored.
    pub fn set_pixel(&mut self, x: u32, y: u32, color: Color)
        requires
            old(self)@.well_formed(),
        ensures
            final(self)@ == old(self)@.with_pixel(x, y, color),
    {
        if x >= self.width || y >= self.height {
            return;
        }
        let i = self.index(x, y);
        self.pixels.set(i, color.r);
        self.pixels.set(i + 1, color.g);
        self.pixels.set(i + 2, color.b);
        self.pixels.set(i + 3, color.a);
        assert(self@ == old(self)@.with_pixel(x, y, color));
    }

    /// Encodes the canvas as a PNG.
    pub fn to_png(&self) -> (r: Result<Vec<u8>, String>)
        requires
            self@.well_formed(),
        ensures
            match r {
                Ok(bytes) => png_encoding(self@.width, self@.height, self@.pixels) == Ok::<
                    Seq<u8>,
                    Seq<char>,
                >(bytes@),
                Err(message) => png_encoding(self@.width, self@.height, self@.pixels) == Err::<
                    Seq<u8>,
                    Seq<char>,
                >(message@),
            },
    {
        encode_png(self.width, self.height, &self.pixels)
    }

    /// Copies the canvas into a `0xAARRGGBB` buffer, which is what the
    /// platform window surfaces expect.
    pub fn to_argb32(&self) -> (r: Vec<u32>)
        requires
            self@.well_formed(),
        ensures
            r@.len() * 4 == self@.pixels.len(),
            forall|i: int|
                0 <= i < r@.len() ==> #[trigger] r@[i] == argb(
                    self@.pixels[4 * i],
                    self@.pixels[4 * i + 1],
                    self@.pixels[4 * i + 2],
                    self@.pixels[4 * i + 3],
                ),
    {
        let n = self.pixels.len();
        let mut out: Vec<u32> = Vec::new();
        let mut i: usize = 0;
        while i < n
            invariant
                n == self.pixels@.len(),
                n % 4 == 0,
                i == out@.len() * 4,
                i <= n,
                forall|k: int|
                    0 <= k < out@.len() ==> #[trigger] out@[k] == argb(
                        self.pixels@[4 * k],
                        self.pixels@[4 * k + 1],
                        self.pixels@[4 * k + 2],
                        self.pixels@[4 * k + 3],
                    ),
            decreases n - i,
        {
            let r = self.pixels[i];
            let g = self.pixels[i + 1];
            let b = self.pixels[i + 2];
            let a = self.pixels[i + 3];
            let packed: u32 = ((a as u32) << 24) | ((r as u32) << 16) | ((g as u32) << 8) | (b as u32);
            assert(packed == argb(r, g, b, a)) by (bit_vector)
                requires
                    packed == ((a as u32) << 24) | ((r as u32) << 16) | ((g as u32) << 8) | (b as u32),
            ;
            out.push(packed);
            i = i + 4;
        }
        out
    }
}

/// Distinct points of a canvas occupy disjoint four-byte runs.
proof fn lemma_offsets_disjoint(width: u32, x: u32, y: u32, x2: u32, y2: u32)
    requires
        x < width,
        x2 < width,
        x != x2 || y != y2,
    ensures
        (y * width + x) * 4 + 4 <= (y2 * width + x2) * 4 || (y2 * width + x2) * 4 + 4 <= (y
            * width + x) * 4,
{
    if y == y2 {
    } else if y < y2 {
        assert(y * width + width <= y2 * width) by (nonlinear_arith)
            requires
                y < y2,
        ;
    } else {
        assert(y2 * width + width <= y * width) by (nonlinear_arith)
            requires
                y2 < y,
        ;
    }
}

/// Writing a pixel and reading it back gives the colour written, every other
/// pixel reads as before, and the canvas stays well formed.
pub proof fn lemma_pixel_reads_back_what_was_written(
    canvas: CanvasView,
    x: u32,
    y: u32,
    color: Color,
    x2: u32,
    y2: u32,
)
    requires
        canvas.well_formed(),
    ensures
        canvas.with_pixel(x, y, color).well_formed(),
        canvas.contains(x, y) ==> canvas.with_pixel(x, y, color).pixel_at(x, y) == color,
        x != x2 || y != y2 ==> canvas.with_pixel(x, y, color).pixel_at(x2, y2) == canvas.pixel_at(
            x2,
            y2,
        ),
{
    if canvas.contains(x, y) {
        lemma_offset_in_bounds(canvas.width, canvas.height, x, y);
        if canvas.contains(x2, y2) && (x != x2 || y != y2) {
            lemma_offset_in_bounds(canvas.width, canvas.height, x2, y2);
            lemma_offsets_disjoint(canvas.width, x, y, x2, y2);
        }
    }
}

/// What `image` makes of an RGBA8 buffer of `width` by `height` pixels
/// written as a PNG: the encoded bytes, or the error's message.
pub uninterp spec fn png_encoding(width: u32, height: u32, rgba: Seq<u8>) -> Result<Seq<u8>, Seq<char>>;

/// Builds an `image::RgbaImage` with `RgbaImage::from_raw` and writes it
/// with `DynamicImage::write_to` in `ImageFormat::Png` into memory.
///
/// The contract claims only that the outcome, bytes or error message, is a
/// function of the dimensions and the buffer, named [`png_encoding`]; what
/// the bytes are, and when the encoder fails, is not stated. The buffer must
/// hold exactly four bytes a pixel: the PNG encoder asserts that length, and
/// `from_raw` lets a longer buffer through to it.
#[verifier::external_body]
fn encode_png(width: u32, height: u32, rgba: &Vec<u8>) -> (r: Result<Vec<u8>, String>)
    requires
        rgba@.len() == width * height * 4,
    ensures
        match r {
            Ok(bytes) => png_encoding(width, height, rgba@) == Ok::<Seq<u8>, Seq<char>>(bytes@),
            Err(message) => png_encoding(width, height, rgba@) == Err::<Seq<u8>, Seq<char>>(message@),
        },
{
    let buffer = match image::RgbaImage::from_raw(width, height, rgba.clone()) {
        Some(buffer) => buffer,
        None => return Err("canvas dimensions do not match its buffer".to_string()),
    };
    let mut out = std::io::Cursor::new(Vec::new());
    match image::DynamicImage::ImageRgba8(buffer).write_to(&mut out, image::ImageFormat::Png) {
        Ok(()) => Ok(out.into_inner()),
        Err(error) => Err(error.to_string()),
    }
}

} // verus!
