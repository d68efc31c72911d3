//! Luminance-mapped ASCII art.

use vstd::prelude::*;
use vstd::string::*;
use vstd::utf8::*;

use crate::ansi::lemma_home_first;
use crate::ansi::CURSOR_HOME;
use crate::ansi::NEWLINE;
use crate::frame::pixel;
use crate::frame::RenderFrame;
use crate::frame::Rgb;
use crate::frame::NTSC_HEIGHT;
use crate::frame::NTSC_WIDTH;
use crate::renderer::Renderer;

verus! {

/// The characters, from dark to bright.
pub const CHARSET: &'static str =
    " .-`',:_;~\"/!|\\i^trc*v?s()+lj1=e{[]z}<xo7f>aJy3Iun542b6Lw9k#dghq80VpT$YACSFPUZ%mEGXNO&DKBR@HQWM";

/// Colours whose brightness lies exactly half-way between two levels and that
/// have the lower one: in double precision the sum of their weighted channels
/// falls just short of the half.
pub const LOW_HALVES: [u32; 20] = [
    0x0df411,
    0x10ddec,
    0x1b5f27,
    0x1e99a2,
    0x2f8fd3,
    0x2fe073,
    0x3d9c29,
    0x51ccd5,
    0x5c4e10,
    0x5f888b,
    0x6d4441,
    0x707ebc,
    0x7e8b12,
    0xa0c814,
    0xa3b1ef,
    0xb1be45,
    0xc2b476,
    0xd0702c,
    0xe1665d,
    0xe4f178,
];

/// The perceived brightness of `rgb`, from 0 to 2550000: its channels, weighted
/// by 0.2126, 0.7152 and 0.0722.
/// <https://stackoverflow.com/questions/596216/formula-to-determine-perceived-brightness-of-rgb-color>
pub open spec fn brightness(rgb: Rgb) -> int {
    2126 * rgb.0 + 7152 * rgb.1 + 722 * rgb.2
}

/// `rgb` lies exactly half-way between two levels and has the lower one.
pub open spec fn is_low_half(rgb: Rgb) -> bool {
    &&& (190 * brightness(rgb) + 2550000) % 5100000 == 0
    &&& LOW_HALVES@.contains(rgb.packed() as u32)
}

/// The level of `rgb` on a scale from 0 to 95: its share of full brightness, in
/// ninety-fifths, rounded to the nearest.
pub open spec fn level(rgb: Rgb) -> int {
    (190 * brightness(rgb) + 2550000) / 5100000 - (if is_low_half(rgb) {
        1int
    } else {
        0
    })
}

/// The character that shows `rgb`. The highest level has none in the set, and is
/// shown as a dot.
pub open spec fn glyph(rgb: Rgb) -> char {
    if level(rgb) < CHARSET@.len() {
        CHARSET@[level(rgb)]
    } else {
        '.'
    }
}

/// The text for the first `n` pixels, each row behind a line break.
pub open spec fn glyphs(pixels: Seq<u8>, n: nat) -> Seq<char>
    decreases n,
{
    if n == 0 {
        Seq::empty()
    } else {
        let k = n - 1;
        glyphs(pixels, k as nat) + (if k % NTSC_WIDTH as int == 0 {
            NEWLINE@
        } else {
            Seq::empty()
        }) + seq![glyph(pixel(pixels, k / NTSC_WIDTH as int, k % NTSC_WIDTH as int))]
    }
}

/// The text that shows a frame with these pixels.
pub open spec fn ascii_text(pixels: Seq<u8>) -> Seq<char> {
    CURSOR_HOME@ + glyphs(pixels, (NTSC_WIDTH * NTSC_HEIGHT) as nat)
}

fn in_low_halves(packed: u32) -> (found: bool)
    ensures
        found == LOW_HALVES@.contains(packed),
{
    for i in 0..LOW_HALVES.len()
        invariant
            forall|j: int| 0 <= j < i ==> LOW_HALVES@[j] != packed,
    {
        if LOW_HALVES[i] == packed {
            return true;
        }
    }
    false
}

/// The level of `rgb` on a scale from 0 to 95.
pub fn level_of(rgb: Rgb) -> (l: usize)
    ensures
        l == level(rgb),
        l <= 95,
{
    let weighted: u32 = 2126 * rgb.0 as u32 + 7152 * rgb.1 as u32 + 722 * rgb.2 as u32;
    let scaled: u32 = 190 * weighted + 2550000;
    let nearest: u32 = scaled / 5100000;
    if scaled % 5100000 == 0 && in_low_halves(rgb.as_u32()) {
        (nearest - 1) as usize
    } else {
        nearest as usize
    }
}

fn glyph_of(rgb: Rgb) -> (g: &'static str)
    ensures
        g@ == seq![glyph(rgb)],
{
    let l = level_of(rgb);
    proof {
        reveal_strlit(
            " .-`',:_;~\"/!|\\i^trc*v?s()+lj1=e{[]z}<xo7f>aJy3Iun542b6Lw9k#dghq80VpT$YACSFPUZ%mEGXNO&DKBR@HQWM",
        );
        reveal_strlit(".");
    }
    if l < 95 {
        let g = CHARSET.substring_ascii(l, l + 1);
        assert(g@ =~= seq![glyph(rgb)]);
        g
    } else {
        "."
    }
}

/// Draws with ASCII characters. No color.
pub struct AsciiRenderer;

impl AsciiRenderer {
    pub fn new() -> (renderer: Self)
        ensures
            renderer == AsciiRenderer,
    {
        AsciiRenderer
    }
}

impl Default for AsciiRenderer {
    fn default() -> (renderer: Self)
        ensures
            renderer == AsciiRenderer,
    {
        Self::new()
    }
}

impl Renderer for AsciiRenderer {
    open spec fn can_render(&self, pixels: Seq<u8>) -> bool {
        true
    }

    open spec fn renders(&self, pixels: Seq<u8>, out: Seq<u8>) -> bool {
        out == encode_utf8(ascii_text(pixels))
    }

    fn render(&mut self, frame: &RenderFrame) -> (out: Vec<u8>) {
        let mut buf = CURSOR_HOME.to_owned();
        assert(buf@ =~= CURSOR_HOME@ + glyphs(frame@, 0));
        for k in 0..NTSC_WIDTH * NTSC_HEIGHT
            invariant
                buf@ == CURSOR_HOME@ + glyphs(frame@, k as nat),
        {
            if k % NTSC_WIDTH == 0 {
                buf.append(NEWLINE);
            }
            buf.append(glyph_of(frame.pixel(k / NTSC_WIDTH, k % NTSC_WIDTH)));
            assert(buf@ =~= CURSOR_HOME@ + glyphs(frame@, (k + 1) as nat));
        }
        proof {
            lemma_home_first(glyphs(frame@, (NTSC_WIDTH * NTSC_HEIGHT) as nat));
        }
        buf.as_str().as_bytes_vec()
    }

    /// The size of the terminal changes nothing.
    fn on_resize(&mut self, _cols: u16, _rows: u16)
        ensures
            *final(self) == *old(self),
    {
    }
}

proof fn lemma_glyphs(pixels: Seq<u8>, n: nat)
    requires
        n <= NTSC_WIDTH * NTSC_HEIGHT,
    ensures
        ({
            let w = NTSC_WIDTH as int;
            let text = glyphs(pixels, n);
            &&& text.len() == n + 2 * ((n + w - 1) / w)
            &&& forall|k: int|
                0 <= k < n ==> text[#[trigger] (k / w) * (w + 2) + 2 + k % w] == glyph(
                    pixel(pixels, k / w, k % w),
                )
            &&& forall|r: int|
                0 <= r < (n + w - 1) / w ==> text[#[trigger] (r * (w + 2))] == '\r' && text[r * (w
                    + 2) + 1] == '\n'
        }),
    decreases n,
{
    reveal_strlit("\r\n");
    if n > 0 {
        lemma_glyphs(pixels, (n - 1) as nat);
        let w = NTSC_WIDTH as int;
        let k = n - 1;
        let text = glyphs(pixels, n);
        let shorter = glyphs(pixels, k as nat);
        assert(shorter.len() == (k / w) * (w + 2) + (if k % w == 0 {
            0
        } else {
            2 + k % w
        }));
        assert(shorter =~= text.take(shorter.len() as int));
        assert forall|j: int| 0 <= j < n implies text[#[trigger] (j / w) * (w + 2) + 2 + j % w]
            == glyph(pixel(pixels, j / w, j % w)) by {
            if j < k {
                assert((j / w) * (w + 2) + 2 + j % w < shorter.len());
            }
        }
        assert forall|r: int| 0 <= r < (n + w - 1) / w implies text[#[trigger] (r * (w + 2))]
            == '\r' && text[r * (w + 2) + 1] == '\n' by {
            if r < (k + w - 1) / w {
                assert(r * (w + 2) + 1 < shorter.len());
            }
        }
    }
}

/// Each row of the frame is one line behind a line break, and each pixel stands
/// in its column.
pub proof fn every_pixel_is_shown(pixels: Seq<u8>, row: int, col: int)
    requires
        0 <= row < NTSC_HEIGHT,
        0 <= col < NTSC_WIDTH,
    ensures
        ({
            let text = glyphs(pixels, (NTSC_WIDTH * NTSC_HEIGHT) as nat);
            let line = row * (NTSC_WIDTH + 2);
            &&& text.len() == NTSC_HEIGHT * (NTSC_WIDTH + 2)
            &&& text[line] == '\r'
            &&& text[line + 1] == '\n'
            &&& text[line + 2 + col] == glyph(pixel(pixels, row, col))
        }),
{
    lemma_glyphs(pixels, (NTSC_WIDTH * NTSC_HEIGHT) as nat);
    let k = row * NTSC_WIDTH + col;
    assert(k / NTSC_WIDTH as int == row && k % NTSC_WIDTH as int == col);
    assert((k / NTSC_WIDTH as int) * (NTSC_WIDTH + 2) + 2 + k % NTSC_WIDTH as int == row * (
    NTSC_WIDTH + 2) + 2 + col);
}

/// A brighter colour has no lower level.
pub proof fn level_grows_with_brightness(darker: Rgb, brighter: Rgb)
    requires
        brightness(darker) < brightness(brighter),
    ensures
        0 <= level(darker) <= level(brighter) <= 95,
{
}

/// A colour is drawn by the character at the place of its level among the 95, from
/// dark to bright, and one of the highest level by a dot. The level is the nearest
/// to 95 times the share of full brightness, the channels weighted by 0.2126,
/// 0.7152 and 0.0722.
pub proof fn glyphs_stand_for_levels(rgb: Rgb)
    ensures
        ({
            let set =
                " .-`',:_;~\"/!|\\i^trc*v?s()+lj1=e{[]z}<xo7f>aJy3Iun542b6Lw9k#dghq80VpT$YACSFPUZ%mEGXNO&DKBR@HQWM"@;
            let weighted = 2126 * rgb.0 + 7152 * rgb.1 + 722 * rgb.2;
            &&& set.len() == 95
            &&& 0 <= level(rgb) <= 95
            &&& 5100000 * level(rgb) - 2550000 <= 190 * weighted <= 5100000 * level(rgb) + 2550000
            &&& level(rgb) < 95 ==> glyph(rgb) == set[level(rgb)]
            &&& level(rgb) == 95 ==> glyph(rgb) == '.'
        }),
{
    reveal_strlit(
        " .-`',:_;~\"/!|\\i^trc*v?s()+lj1=e{[]z}<xo7f>aJy3Iun542b6Lw9k#dghq80VpT$YACSFPUZ%mEGXNO&DKBR@HQWM",
    );
}

/// Of two colours below the highest level, the one with the higher level has the
/// character that stands further back.
pub proof fn brighter_glyphs_stand_further_back(darker: Rgb, brighter: Rgb)
    requires
        level(darker) < level(brighter) < 95,
    ensures
        exists|i: int, j: int|
            0 <= i < j < CHARSET@.len() && #[trigger] CHARSET@[i] == glyph(darker)
                && #[trigger] CHARSET@[j] == glyph(brighter),
{
    glyphs_stand_for_levels(darker);
    glyphs_stand_for_levels(brighter);
    let (i, j) = (level(darker), level(brighter));
    assert(CHARSET@[i] == glyph(darker) && CHARSET@[j] == glyph(brighter));
}

/// The text is 224 lines of 240 characters, each line behind a carriage return and
/// a line feed, and each character is that of the three bytes of its pixel.
pub proof fn every_byte_is_shown(pixels: Seq<u8>, row: int, col: int)
    requires
        0 <= row < 224,
        0 <= col < 240,
    ensures
        ({
            let text = ascii_text(pixels);
            let at = (row * 240 + col) * 3;
            &&& text.len() == 3 + 224 * 242
            &&& text[0] == '\x1b' && text[1] == '[' && text[2] == 'H'
            &&& text[3 + row * 242] == '\r' && text[4 + row * 242] == '\n'
            &&& text[5 + row * 242 + col] == glyph(
                Rgb(pixels[at], pixels[at + 1], pixels[at + 2]),
            )
        }),
{
    reveal_strlit("\x1b[H");
    every_pixel_is_shown(pixels, row, col);
}

/// Every frame can be rendered, and what is rendered is, in UTF-8, the character of
/// each pixel in its line and column.
pub proof fn rendered_frames_are_shown(
    renderer: AsciiRenderer,
    pixels: Seq<u8>,
    out: Seq<u8>,
    row: int,
    col: int,
)
    requires
        renderer.renders(pixels, out),
        0 <= row < 224,
        0 <= col < 240,
    ensures
        renderer.can_render(pixels),
        ({
            let text = decode_utf8(out);
            let at = (row * 240 + col) * 3;
            &&& text.len() == 3 + 224 * 242
            &&& text[5 + row * 242 + col] == glyph(
                Rgb(pixels[at], pixels[at + 1], pixels[at + 2]),
            )
        }),
{
    encode_utf8_decode_utf8(ascii_text(pixels));
    every_byte_is_shown(pixels, row, col);
}

} // verus!
