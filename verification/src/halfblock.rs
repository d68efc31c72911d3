//! Unicode upper-half-blocks: each character cell shows two pixels, the upper
//! one as foreground and the lower one as background.

use vstd::prelude::*;
use vstd::string::*;
use vstd::utf8::encode_utf8;

use crate::ansi::ansi256_index;
use crate::ansi::lemma_home_first;
use crate::ansi::sgr_256;
use crate::ansi::sgr_true;
use crate::ansi::Ansi;
use crate::ansi::CURSOR_HOME;
use crate::ansi::NEWLINE;
use crate::frame::pixel;
use crate::frame::RenderFrame;
use crate::frame::Rgb;
use crate::frame::NTSC_HEIGHT;
use crate::frame::NTSC_WIDTH;
use crate::renderer::Renderer;

verus! {

/// The character that fills the upper half of its cell.
pub const UPPER_BLOCK: &'static str = "\u{2580}";

/// Color fidelity for the [`HalfblockRenderer`].
#[derive(Debug, Clone, Copy, PartialEq, Eq, Structural)]
pub enum ColorDepth {
    /// Indexed 256-color. Widest terminal/netcat compatibility.
    Ansi256,
    /// 24-bit truecolor. Best fidelity for local terminals.
    Truecolor,
}

/// One step of drawing.
pub enum Mark {
    /// What follows has this foreground.
    Fg(Rgb),
    /// What follows has this background.
    Bg(Rgb),
    /// A cell is filled with an upper half block.
    Block,
    /// The row is complete.
    Newline,
}

/// The number of character cells of a frame.
pub open spec fn cells() -> nat {
    (NTSC_WIDTH * (NTSC_HEIGHT / 2)) as nat
}

/// The pixel in the upper half of cell `k`.
pub open spec fn upper(pixels: Seq<u8>, k: int) -> Rgb {
    pixel(pixels, 2 * (k / NTSC_WIDTH as int), k % NTSC_WIDTH as int)
}

/// The pixel in the lower half of cell `k`.
pub open spec fn lower(pixels: Seq<u8>, k: int) -> Rgb {
    pixel(pixels, 2 * (k / NTSC_WIDTH as int) + 1, k % NTSC_WIDTH as int)
}

/// The colours of the two halves of cell `k`, the upper first.
pub open spec fn halves(pixels: Seq<u8>, k: int) -> (Rgb, Rgb) {
    (upper(pixels, k), lower(pixels, k))
}

/// What draws a cell of the colours `now` behind one of the colours `before`: a
/// colour is selected only where it differs from that of the cell before.
pub open spec fn step_marks(before: Option<(Rgb, Rgb)>, now: (Rgb, Rgb), ends_row: bool) -> Seq<
    Mark,
> {
    let fg = if before matches Some(b) && b.0 == now.0 {
        seq![]
    } else {
        seq![Mark::Fg(now.0)]
    };
    let bg = if before matches Some(b) && b.1 == now.1 {
        seq![]
    } else {
        seq![Mark::Bg(now.1)]
    };
    let end = if ends_row {
        seq![Mark::Newline]
    } else {
        seq![]
    };
    fg + bg + seq![Mark::Block] + end
}

/// What draws cell `k`.
pub open spec fn cell_marks(pixels: Seq<u8>, k: int) -> Seq<Mark> {
    step_marks(
        if k == 0 {
            None
        } else {
            Some(halves(pixels, k - 1))
        },
        halves(pixels, k),
        k % NTSC_WIDTH as int == NTSC_WIDTH - 1,
    )
}

/// What draws the first `n` cells.
pub open spec fn marks(pixels: Seq<u8>, n: nat) -> Seq<Mark>
    decreases n,
{
    if n == 0 {
        Seq::empty()
    } else {
        marks(pixels, (n - 1) as nat) + cell_marks(pixels, n - 1)
    }
}

/// The text that selects `rgb` as foreground.
pub open spec fn fg_text(depth: ColorDepth, rgb: Rgb) -> Seq<char> {
    match depth {
        ColorDepth::Ansi256 => sgr_256("38"@, ansi256_index(rgb.packed() as u32)),
        ColorDepth::Truecolor => sgr_true("38"@, rgb),
    }
}

/// The text that selects `rgb` as background.
pub open spec fn bg_text(depth: ColorDepth, rgb: Rgb) -> Seq<char> {
    match depth {
        ColorDepth::Ansi256 => sgr_256("48"@, ansi256_index(rgb.packed() as u32)),
        ColorDepth::Truecolor => sgr_true("48"@, rgb),
    }
}

/// How a step is written.
pub open spec fn mark_text(depth: ColorDepth, mark: Mark) -> Seq<char> {
    match mark {
        Mark::Fg(rgb) => fg_text(depth, rgb),
        Mark::Bg(rgb) => bg_text(depth, rgb),
        Mark::Block => UPPER_BLOCK@,
        Mark::Newline => NEWLINE@,
    }
}

/// How steps are written, one behind the other.
pub open spec fn marks_text(depth: ColorDepth, marks: Seq<Mark>) -> Seq<char>
    decreases marks.len(),
{
    if marks.len() == 0 {
        Seq::empty()
    } else {
        marks_text(depth, marks.drop_last()) + mark_text(depth, marks.last())
    }
}

/// The text that shows a frame with these pixels.
pub open spec fn halfblock_text(depth: ColorDepth, pixels: Seq<u8>) -> Seq<char> {
    CURSOR_HOME@ + marks_text(depth, marks(pixels, cells()))
}

proof fn lemma_concat_assoc(a: Seq<char>, b: Seq<char>, c: Seq<char>)
    ensures
        a + b + c == a + (b + c),
{
}

proof fn lemma_marks_text_push(depth: ColorDepth, marks: Seq<Mark>, mark: Mark)
    ensures
        marks_text(depth, marks.push(mark)) == marks_text(depth, marks) + mark_text(depth, mark),
{
    assert(marks.push(mark).drop_last() =~= marks);
}

/// Draws with half blocks.
pub struct HalfblockRenderer {
    depth: ColorDepth,
}

impl View for HalfblockRenderer {
    type V = ColorDepth;

    closed spec fn view(&self) -> ColorDepth {
        self.depth
    }
}

impl HalfblockRenderer {
    pub fn new(depth: ColorDepth) -> (renderer: Self)
        ensures
            renderer@ == depth,
    {
        HalfblockRenderer { depth }
    }

    /// Selects `rgb` as foreground.
    pub fn open_fg(&self, rgb: Rgb) -> (escape: String)
        ensures
            escape@ == fg_text(self@, rgb),
    {
        match self.depth {
            ColorDepth::Ansi256 => Ansi::open_fg_256(rgb),
            ColorDepth::Truecolor => Ansi::open_fg_true(rgb),
        }
    }

    /// Selects `rgb` as background.
    pub fn open_bg(&self, rgb: Rgb) -> (escape: String)
        ensures
            escape@ == bg_text(self@, rgb),
    {
        match self.depth {
            ColorDepth::Ansi256 => Ansi::open_bg_256(rgb),
            ColorDepth::Truecolor => Ansi::open_bg_true(rgb),
        }
    }

    fn push_mark(&self, buf: &mut String, mark: &Mark)
        ensures
            final(buf)@ == old(buf)@ + mark_text(self@, *mark),
    {
        match mark {
            Mark::Fg(rgb) => buf.append(self.open_fg(*rgb).as_str()),
            Mark::Bg(rgb) => buf.append(self.open_bg(*rgb).as_str()),
            Mark::Block => buf.append(UPPER_BLOCK),
            Mark::Newline => buf.append(NEWLINE),
        }
    }

    fn push_marks(&self, buf: &mut String, marks: &Vec<Mark>)
        ensures
            final(buf)@ == old(buf)@ + marks_text(self@, marks@),
    {
        let ghost before = buf@;
        assert(before + marks_text(self@, marks@.take(0)) =~= before);
        for i in 0..marks.len()
            invariant
                buf@ == before + marks_text(self@, marks@.take(i as int)),
        {
            self.push_mark(buf, &marks[i]);
            proof {
                assert(marks@.take(i + 1) =~= marks@.take(i as int).push(marks@[i as int]));
                lemma_marks_text_push(self@, marks@.take(i as int), marks@[i as int]);
                lemma_concat_assoc(
                    before,
                    marks_text(self@, marks@.take(i as int)),
                    mark_text(self@, marks@[i as int]),
                );
            }
        }
        assert(marks@.take(marks@.len() as int) =~= marks@);
    }
}

fn push_step(drawn: &mut Vec<Mark>, before: Option<(Rgb, Rgb)>, now: (Rgb, Rgb), ends_row: bool)
    ensures
        final(drawn)@ == old(drawn)@ + step_marks(before, now, ends_row),
{
    let (same_upper, same_lower) = match before {
        Some(b) => (b.0 == now.0, b.1 == now.1),
        None => (false, false),
    };
    if !same_upper {
        drawn.push(Mark::Fg(now.0));
    }
    if !same_lower {
        drawn.push(Mark::Bg(now.1));
    }
    drawn.push(Mark::Block);
    if ends_row {
        drawn.push(Mark::Newline);
    }
    assert(drawn@ =~= old(drawn)@ + step_marks(before, now, ends_row));
}

/// What draws `frame`.
pub fn frame_marks(frame: &RenderFrame) -> (drawn: Vec<Mark>)
    ensures
        drawn@ == marks(frame@, cells()),
{
    let mut drawn: Vec<Mark> = Vec::new();
    let mut before: Option<(Rgb, Rgb)> = None;
    for k in 0..NTSC_WIDTH * (NTSC_HEIGHT / 2)
        invariant
            drawn@ == marks(frame@, k as nat),
            before == (if k == 0 {
                None
            } else {
                Some(halves(frame@, k - 1))
            }),
    {
        let row: usize = 2 * (k / NTSC_WIDTH);
        let col: usize = k % NTSC_WIDTH;
        let now = (frame.pixel(row, col), frame.pixel(row + 1, col));
        push_step(&mut drawn, before, now, col == NTSC_WIDTH - 1);
        before = Some(now);
    }
    drawn
}

impl Renderer for HalfblockRenderer {
    open spec fn can_render(&self, pixels: Seq<u8>) -> bool {
        true
    }

    open spec fn renders(&self, pixels: Seq<u8>, out: Seq<u8>) -> bool {
        out == encode_utf8(halfblock_text(self@, pixels))
    }

    fn render(&mut self, frame: &RenderFrame) -> (out: Vec<u8>)
        ensures
            *final(self) == *old(self),
    {
        let marks = frame_marks(frame);
        let mut buf = CURSOR_HOME.to_owned();
        self.push_marks(&mut buf, &marks);
        proof {
            lemma_home_first(marks_text(self@, marks@));
        }
        buf.as_str().as_bytes_vec()
    }

    /// The size of the terminal changes nothing.
    fn on_resize(&mut self, _cols: u16, _rows: u16)
        ensures
            *final(self) == *old(self),
    {
    }
}

} // verus!
