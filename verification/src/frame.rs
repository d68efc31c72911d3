//! The picture that the renderers draw: the visible NTSC part of an NES frame,
//! as tightly packed RGB888 rows.

use vstd::prelude::*;

verus! {

/// Visible columns of an NTSC frame.
pub const NTSC_WIDTH: usize = 240;

/// Visible rows of an NTSC frame.
pub const NTSC_HEIGHT: usize = 224;

/// Bytes of one RGB888 pixel.
pub const BYTES_PER_PIXEL: usize = 3;

/// Bytes of one NTSC frame.
pub const FRAME_BYTES: usize = 161280;

/// A 24-bit colour: red, green, blue.
#[derive(PartialEq, Eq, Debug, Clone, Copy, Structural)]
pub struct Rgb(pub u8, pub u8, pub u8);

impl Rgb {
    /// The colour as a `0xRRGGBB` integer.
    pub open spec fn packed(self) -> int {
        self.0 * 0x10000 + self.1 * 0x100 + self.2
    }

    /// The colour as a `0xRRGGBB` integer.
    pub fn as_u32(&self) -> (rgb: u32)
        ensures
            rgb == self.packed(),
    {
        let (r, g, b): (u32, u32, u32) = (self.0 as u32, self.1 as u32, self.2 as u32);
        assert((r << 16) | (g << 8) | b == r * 0x10000 + g * 0x100 + b) by (bit_vector)
            requires
                r < 0x100,
                g < 0x100,
                b < 0x100,
        ;
        (r << 16) | (g << 8) | b
    }
}

/// `pixels` has the size of an NTSC frame.
pub open spec fn is_frame(pixels: Seq<u8>) -> bool {
    pixels.len() == FRAME_BYTES
}

/// The colour of the pixel at `row` and `col`.
pub open spec fn pixel(pixels: Seq<u8>, row: int, col: int) -> Rgb {
    let at = (row * NTSC_WIDTH + col) * 3;
    Rgb(pixels[at], pixels[at + 1], pixels[at + 2])
}

/// One NTSC frame. Its view is the sequence of its bytes.
pub struct RenderFrame {
    pixels: Vec<u8>,
}

impl View for RenderFrame {
    type V = Seq<u8>;

    closed spec fn view(&self) -> Seq<u8> {
        self.pixels@
    }
}

impl RenderFrame {
    #[verifier::type_invariant]
    spec fn inv(self) -> bool {
        is_frame(self.pixels@)
    }

    /// The frame that consists of `pixels`, or `None` where their number is not
    /// that of an NTSC frame.
    pub fn from_pixels_ntsc(pixels: Vec<u8>) -> (frame: Option<RenderFrame>)
        ensures
            match frame {
                Some(f) => is_frame(pixels@) && f@ == pixels@,
                None => !is_frame(pixels@),
            },
    {
        if pixels.len() == FRAME_BYTES {
            Some(RenderFrame { pixels })
        } else {
            None
        }
    }

    /// The bytes of the frame, row by row from the top.
    pub fn pixels_ntsc(&self) -> (pixels: &[u8])
        ensures
            pixels@ == self@,
            is_frame(self@),
    {
        proof {
            use_type_invariant(self);
        }
        self.pixels.as_slice()
    }

    /// The colour of the pixel at `row` and `col`.
    pub fn pixel(&self, row: usize, col: usize) -> (rgb: Rgb)
        requires
            row < NTSC_HEIGHT,
            col < NTSC_WIDTH,
        ensures
            rgb == pixel(self@, row as int, col as int),
    {
        proof {
            use_type_invariant(self);
        }
        let at: usize = (row * NTSC_WIDTH + col) * BYTES_PER_PIXEL;
        Rgb(self.pixels[at], self.pixels[at + 1], self.pixels[at + 2])
    }
}

/// Red, green and blue can be got back from the integer, so no two colours share
/// one.
pub proof fn channels_can_be_read_back(rgb: Rgb)
    ensures
        0 <= rgb.packed() < 0x1000000,
        rgb.packed() / 65536 == rgb.0,
        rgb.packed() / 256 % 256 == rgb.1,
        rgb.packed() % 256 == rgb.2,
{
}

/// A frame is 224 rows of 240 pixels of three bytes, row by row, each pixel red,
/// green, blue.
pub proof fn pixels_lie_row_by_row(pixels: Seq<u8>, row: int, col: int)
    requires
        is_frame(pixels),
        0 <= row < 224,
        0 <= col < 240,
    ensures
        pixels.len() == 224 * 240 * 3,
        0 <= (row * 240 + col) * 3 <= pixels.len() - 3,
        pixel(pixels, row, col) == Rgb(
            pixels[(row * 240 + col) * 3],
            pixels[(row * 240 + col) * 3 + 1],
            pixels[(row * 240 + col) * 3 + 2],
        ),
{
}

/// Every number of bytes that makes up 224 rows of 240 pixels is a frame, and no
/// other is.
pub proof fn frames_have_one_size(pixels: Seq<u8>)
    ensures
        is_frame(pixels) <==> pixels.len() == 224 * 240 * 3,
{
}

} // verus!
