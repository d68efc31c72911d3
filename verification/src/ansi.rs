//! ANSI escape sequences.

use vstd::prelude::*;
use vstd::string::*;
use vstd::utf8::encode_utf8;
use vstd::utf8::is_ascii_chars_encode_utf8;

use crate::frame::Rgb;
use crate::text::decimal;
use crate::text::lemma_encode_concat;
use crate::text::push_decimal;

verus! {

/// Moves the cursor to the top left corner.
pub const CURSOR_HOME: &'static str = "\x1b[H";

/// The bytes of [`CURSOR_HOME`].
pub const CURSOR_HOME_BYTES: [u8; 3] = [0x1b, 0x5b, 0x48];

/// Erases the whole screen.
pub const CLEAR: &'static str = "\x1b[2J";

/// The bytes of [`CLEAR`].
pub const CLEAR_BYTES: [u8; 4] = [0x1b, 0x5b, 0x32, 0x4a];

/// Row terminator. `\r\n` (not bare `\n`) so frames line up under a terminal in
/// raw mode, where the kernel no longer maps NL->CRNL. Harmless on cooked TTYs.
pub const NEWLINE: &'static str = "\r\n";

/// `bytes` begins by homing the cursor.
pub open spec fn homes_cursor(bytes: Seq<u8>) -> bool {
    CURSOR_HOME_BYTES@.is_prefix_of(bytes)
}

/// Text that begins by homing the cursor does so in bytes.
pub proof fn lemma_home_first(rest: Seq<char>)
    ensures
        homes_cursor(encode_utf8(CURSOR_HOME@ + rest)),
{
    reveal_strlit("\x1b[H");
    lemma_encode_concat(CURSOR_HOME@, rest);
    let bytes = encode_utf8(CURSOR_HOME@);
    is_ascii_chars_encode_utf8(CURSOR_HOME@);
    assert(bytes =~= CURSOR_HOME_BYTES@) by {
        assert(CURSOR_HOME@[0] as u8 == bytes[0]);
        assert(CURSOR_HOME@[1] as u8 == bytes[1]);
        assert(CURSOR_HOME@[2] as u8 == bytes[2]);
    }
}

/// The index of the colour in the 256-colour palette by which `ansi_colours`
/// approximates the colour `0xRRGGBB`.
pub uninterp spec fn ansi256_index(rgb: u32) -> u8;

/// Calls `ansi_colours::ansi256_from_rgb` on a `0xRRGGBB` integer. What it
/// returns depends on that integer alone.
#[verifier::external_body]
fn ansi256_from_rgb(rgb: u32) -> (index: u8)
    ensures
        index == ansi256_index(rgb),
{
    ansi_colours::ansi256_from_rgb(rgb)
}

/// `\x1b[<layer>;5;<index>m`
pub open spec fn sgr_256(layer: Seq<char>, index: u8) -> Seq<char> {
    "\x1b["@ + layer + ";5;"@ + decimal(index as nat) + "m"@
}

/// `\x1b[<layer>;2;<red>;<green>;<blue>m`
pub open spec fn sgr_true(layer: Seq<char>, rgb: Rgb) -> Seq<char> {
    "\x1b["@ + layer + ";2;"@ + decimal(rgb.0 as nat) + ";"@ + decimal(rgb.1 as nat) + ";"@
        + decimal(rgb.2 as nat) + "m"@
}

fn open_256(layer: &str, index: u8) -> (escape: String)
    ensures
        escape@ == sgr_256(layer@, index),
{
    let mut escape = "\x1b[".to_owned();
    escape.append(layer);
    escape.append(";5;");
    push_decimal(&mut escape, index as u64);
    escape.append("m");
    escape
}

fn open_true(layer: &str, rgb: Rgb) -> (escape: String)
    ensures
        escape@ == sgr_true(layer@, rgb),
{
    let mut escape = "\x1b[".to_owned();
    escape.append(layer);
    escape.append(";2;");
    push_decimal(&mut escape, rgb.0 as u64);
    escape.append(";");
    push_decimal(&mut escape, rgb.1 as u64);
    escape.append(";");
    push_decimal(&mut escape, rgb.2 as u64);
    escape.append("m");
    escape
}

/// SGR color escape helpers. Two color depths are supported: indexed 256-color
/// (widest compatibility, used for netcat clients) and 24-bit truecolor
/// (higher fidelity, used by the local TUI).
pub struct Ansi;

impl Ansi {
    /// Selects the palette colour nearest to `rgb` as foreground.
    pub fn open_fg_256(rgb: Rgb) -> (escape: String)
        ensures
            escape@ == sgr_256("38"@, ansi256_index(rgb.packed() as u32)),
    {
        Self::open_fg_index(ansi256_from_rgb(rgb.as_u32()))
    }

    /// Selects the palette colour nearest to `rgb` as background.
    pub fn open_bg_256(rgb: Rgb) -> (escape: String)
        ensures
            escape@ == sgr_256("48"@, ansi256_index(rgb.packed() as u32)),
    {
        Self::open_bg_index(ansi256_from_rgb(rgb.as_u32()))
    }

    /// Selects the palette colour `index` as foreground.
    pub fn open_fg_index(index: u8) -> (escape: String)
        ensures
            escape@ == sgr_256("38"@, index),
    {
        open_256("38", index)
    }

    /// Selects the palette colour `index` as background.
    pub fn open_bg_index(index: u8) -> (escape: String)
        ensures
            escape@ == sgr_256("48"@, index),
    {
        open_256("48", index)
    }

    /// Selects `rgb` as foreground.
    pub fn open_fg_true(rgb: Rgb) -> (escape: String)
        ensures
            escape@ == sgr_true("38"@, rgb),
    {
        open_true("38", rgb)
    }

    /// Selects `rgb` as background.
    pub fn open_bg_true(rgb: Rgb) -> (escape: String)
        ensures
            escape@ == sgr_true("48"@, rgb),
    {
        open_true("48", rgb)
    }
}

/// The escapes are `ESC [`, the layer, `2` with red, green and blue, or `5` with a
/// place in the palette, each in decimal and behind a semicolon, and `m`.
pub proof fn escapes_hold_their_numbers(layer: Seq<char>, rgb: Rgb, index: u8)
    ensures
        sgr_true(layer, rgb) == seq!['\x1b', '['] + layer + seq![';', '2', ';'] + decimal(
            rgb.0 as nat,
        ) + seq![';'] + decimal(rgb.1 as nat) + seq![';'] + decimal(rgb.2 as nat) + seq!['m'],
        sgr_256(layer, index) == seq!['\x1b', '['] + layer + seq![';', '5', ';'] + decimal(
            index as nat,
        ) + seq!['m'],
{
    reveal_strlit("\x1b[");
    reveal_strlit(";2;");
    reveal_strlit(";5;");
    reveal_strlit(";");
    reveal_strlit("m");
    assert("\x1b["@ =~= seq!['\x1b', '[']);
    assert(";2;"@ =~= seq![';', '2', ';']);
    assert(";5;"@ =~= seq![';', '5', ';']);
    assert(";"@ =~= seq![';']);
    assert("m"@ =~= seq!['m']);
}

} // verus!
