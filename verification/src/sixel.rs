//! Sixel images: what libsixel is asked for, and what is made of its output.

use vstd::prelude::*;

use crate::ansi::homes_cursor;
use crate::ansi::CURSOR_HOME_BYTES;
use crate::bytes::push_bytes;
use crate::codec::frame_png;
use crate::codec::png_rgb8;
use crate::frame::RenderFrame;
use crate::frame::NTSC_HEIGHT;
use crate::frame::NTSC_WIDTH;

verus! {

/// Renders frames as Sixel images: the part of it that decides what libsixel
/// encodes, how large, and what is shown of its output. The view is the scale.
pub struct SixelRenderer {
    scale: u32,
}

impl View for SixelRenderer {
    type V = u32;

    closed spec fn view(&self) -> u32 {
        self.scale
    }
}

impl SixelRenderer {
    /// Default 3x scale.
    pub fn new() -> (renderer: Self)
        ensures
            renderer@ == 3,
    {
        Self::with_scale(3)
    }

    /// Integer pixel scale (1 = native NTSC 240x224, 3 = 720x672, ...). Applied
    /// by libsixel as a percent post-scale of the encoded PNG.
    pub fn with_scale(scale: u32) -> (renderer: Self)
        ensures
            renderer@ == scale,
    {
        SixelRenderer { scale }
    }

    /// The width and height to ask libsixel for, in percent of the picture. A
    /// scale of zero is taken as one.
    pub fn percent(&self) -> (percent: u64)
        ensures
            percent == (if self@ == 0 {
                1
            } else {
                self@ as int
            }) * 100,
            percent % 100 == 0,
            self@ >= 1 ==> percent / 100 == self@,
            self@ == 0 ==> percent == 100,
    {
        let scale: u32 = if self.scale == 0 {
            1
        } else {
            self.scale
        };
        scale as u64 * 100
    }

    /// The file that libsixel encodes: the frame as PNG.
    pub fn input(&self, frame: &RenderFrame) -> (file: Vec<u8>)
        ensures
            file@ == png_rgb8(frame@, NTSC_WIDTH as u32, NTSC_HEIGHT as u32),
    {
        frame_png(frame)
    }

    /// The bytes that show the Sixel image `image`: cursor home, then the image.
    pub fn frame_bytes(&self, image: &[u8]) -> (out: Vec<u8>)
        ensures
            out@ == CURSOR_HOME_BYTES@ + image@,
            homes_cursor(out@),
            out@.len() == 3 + image@.len(),
            out@.skip(3) == image@,
    {
        let mut out: Vec<u8> = Vec::new();
        push_bytes(&mut out, CURSOR_HOME_BYTES.as_slice());
        push_bytes(&mut out, image);
        out
    }

    /// The size of the terminal changes nothing.
    pub fn on_resize(&mut self, _cols: u16, _rows: u16)
        ensures
            *final(self) == *old(self),
    {
    }
}

impl Default for SixelRenderer {
    fn default() -> (renderer: Self)
        ensures
            renderer@ == 3,
    {
        Self::new()
    }
}

} // verus!
