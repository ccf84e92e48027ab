use vstd::prelude::*;

verus! {

/// Settings of the window that shows the simulation.
pub struct WindowConfig {
    pub title: String,
    pub resizable: bool,
    pub width: u32,
    pub height: u32,
}

/// The packed value `0x00RRGGBB` of a colour.
pub open spec fn rgb_value(r: u8, g: u8, b: u8) -> u32 {
    (b as int + 256 * g as int + 65536 * r as int) as u32
}

/// Packs the three channels as `0x00RRGGBB`.
fn rgb_to_u32(r: u8, g: u8, b: u8) -> (v: u32)
    ensures
        v == rgb_value(r, g, b),
{
    let (r, g, b) = (r as u32, g as u32, b as u32);
    assert(b | (g << 8) | (r << 16) == b + 256 * g + 65536 * r) by (bit_vector)
        requires
            r < 256,
            g < 256,
            b < 256,
    ;
    b | (g << 8) | (r << 16)
}

/// A colour packed as `0x00RRGGBB`, the pixel format of the frame buffer.
#[derive(Clone, Copy, Debug, PartialEq, Eq, Structural)]
pub struct Color(u32);

impl View for Color {
    type V = u32;

    closed spec fn view(&self) -> u32 {
        self.0
    }
}

impl Color {
    pub fn new(r: u8, g: u8, b: u8) -> (c: Color)
        ensures
            c@ == rgb_value(r, g, b),
    {
        Color(rgb_to_u32(r, g, b))
    }

    pub fn black() -> (c: Color)
        ensures
            c@ == rgb_value(0, 0, 0),
    {
        Color::new(0, 0, 0)
    }

    pub fn white() -> (c: Color)
        ensures
            c@ == rgb_value(255, 255, 255),
    {
        Color::new(255, 255, 255)
    }

    /// The packed value.
    pub fn value(&self) -> (v: u32)
        ensures
            v == self@,
    {
        self.0
    }
}

/// A row-major frame of `width` by `height` packed pixels.
pub struct PixelBuffer {
    pixels: Vec<u32>,
    width: usize,
    height: usize,
}

/// The abstract state of a frame.
pub struct PixelView {
    pub pixels: Seq<u32>,
    pub width: int,
    pub height: int,
}

impl View for PixelBuffer {
    type V = PixelView;

    closed spec fn view(&self) -> PixelView {
        PixelView { pixels: self.pixels@, width: self.width as int, height: self.height as int }
    }
}

impl PixelBuffer {
    /// One pixel per cell of the frame.
    pub open spec fn wf(&self) -> bool {
        self@.pixels.len() == self@.width * self@.height
    }

    /// A black frame of `width` by `height` pixels.
    pub fn new(width: usize, height: usize) -> (r: PixelBuffer)
        requires
            width * height <= usize::MAX,
        ensures
            r.wf(),
            r@.width == width,
            r@.height == height,
            forall|i: int| 0 <= i < r@.pixels.len() ==> #[trigger] r@.pixels[i] == rgb_value(0, 0, 0),
    {
        let size = width * height;
        let black = Color::black();
        let mut pixels: Vec<u32> = Vec::with_capacity(size);
        let mut i: usize = 0;
        while i < size
            invariant
                i <= size,
                pixels@.len() == i,
                black@ == rgb_value(0, 0, 0),
                forall|j: int| 0 <= j < i ==> #[trigger] pixels@[j] == rgb_value(0, 0, 0),
            decreases size - i,
        {
            pixels.push(black.value());
            i = i + 1;
        }
        PixelBuffer { pixels, width, height }
    }

    pub fn width(&self) -> (r: usize)
        ensures
            r == self@.width,
    {
        self.width
    }

    pub fn height(&self) -> (r: usize)
        ensures
            r == self@.height,
    {
        self.height
    }

    /// The packed pixels, row by row.
    pub fn pixels(&self) -> (r: &[u32])
        ensures
            r@ == self@.pixels,
    {
        self.pixels.as_slice()
    }

    /// Paints every pixel with `color`.
    pub fn clear(&mut self, color: Color)
        requires
            old(self).wf(),
        ensures
            final(self).wf(),
            final(self)@.width == old(self)@.width,
            final(self)@.height == old(self)@.height,
            final(self)@.pixels.len() == old(self)@.pixels.len(),
            forall|i: int| 0 <= i < final(self)@.pixels.len() ==> #[trigger] final(self)@.pixels[i] == color@,
    {
        let value = color.value();
        let mut i: usize = 0;
        while i < self.pixels.len()
            invariant
                i <= self.pixels@.len(),
                self.pixels@.len() == old(self).pixels@.len(),
                self.width == old(self).width,
                self.height == old(self).height,
                value == color@,
                forall|j: int| 0 <= j < i ==> #[trigger] self.pixels@[j] == value,
            decreases self.pixels@.len() - i,
        {
            self.pixels.set(i, value);
            i = i + 1;
        }
    }

    /// Paints the pixel at column `x`, row `y` with `color`.
    pub fn draw_pixel(&mut self, x: usize, y: usize, color: Color)
        requires
            old(self).wf(),
            x < old(self)@.width,
            y < old(self)@.height,
        ensures
            final(self).wf(),
            final(self)@.width == old(self)@.width,
            final(self)@.height == old(self)@.height,
            final(self)@.pixels == old(self)@.pixels.update(x + old(self)@.width * y, color@),
    {
        proof {
            assert(self.pixels@.len() == self.pixels.len());
            assert(0 <= self.width * y) by (nonlinear_arith);
            assert(self.width * y <= self.width * (self.height - 1)) by (nonlinear_arith)
                requires
                    y < self.height,
            ;
            assert(self.width * (self.height - 1) + self.width == self.width * self.height)
                by (nonlinear_arith);
        }
        let index = x + self.width * y;
        self.pixels.set(index, color.value());
    }
}

} // verus!
