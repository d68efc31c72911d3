//! What every renderer does.

use vstd::prelude::*;

use crate::ansi::homes_cursor;
use crate::frame::RenderFrame;

verus! {

pub trait Renderer {
    /// The renderer can render a frame with these pixels: what it would hand to
    /// the terminal fits in memory.
    spec fn can_render(&self, pixels: Seq<u8>) -> bool;

    /// `out` shows a frame with these pixels.
    spec fn renders(&self, pixels: Seq<u8>, out: Seq<u8>) -> bool;

    /// Render `frame` to terminal bytes. Output is prefixed with a cursor-home so
    /// successive frames overdraw in place.
    fn render(&mut self, frame: &RenderFrame) -> (out: Vec<u8>)
        requires
            old(self).can_render(frame@),
        ensures
            old(self).renders(frame@, out@),
            homes_cursor(out@),
    ;

    /// Notify the renderer of the current terminal size in cells. Called once at
    /// startup and again on every resize. Most renderers don't care; the chafa
    /// renderer uses it to drive `--view-size`. Default: no-op.
    fn on_resize(&mut self, _cols: u16, _rows: u16)
        default_ensures
            forall|pixels: Seq<u8>| #[trigger]
                final(self).can_render(pixels) == old(self).can_render(pixels),
            forall|pixels: Seq<u8>, out: Seq<u8>| #[trigger]
                final(self).renders(pixels, out) == old(self).renders(pixels, out),
    {
    }
}

} // verus!
