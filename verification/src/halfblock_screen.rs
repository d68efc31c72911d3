//! A terminal that shows coloured half blocks, and what it shows of a frame.

use vstd::prelude::*;
use vstd::string::*;
use vstd::utf8::*;

use crate::ansi::ansi256_index;
use crate::ansi::sgr_256;
use crate::ansi::sgr_true;
use crate::ansi::CURSOR_HOME;
use crate::ansi::NEWLINE;
use crate::frame::is_frame;
use crate::frame::pixel;
use crate::frame::Rgb;
use crate::frame::NTSC_HEIGHT;
use crate::frame::NTSC_WIDTH;
use crate::halfblock::cells;
use crate::halfblock::halfblock_text;
use crate::halfblock::halves;
use crate::halfblock::lower;
use crate::halfblock::mark_text;
use crate::halfblock::marks;
use crate::halfblock::marks_text;
use crate::halfblock::step_marks;
use crate::halfblock::upper;
use crate::halfblock::ColorDepth;
use crate::halfblock::HalfblockRenderer;
use crate::halfblock::Mark;
use crate::halfblock::UPPER_BLOCK;
use crate::renderer::Renderer;
use crate::text::decimal;
use crate::text::decimal_is_read_back;
use crate::text::lemma_decimal_is_digits;
use crate::text::lemma_split_more;
use crate::text::lemma_split_one;
use crate::text::numeral;
use crate::text::split;

verus! {

/// A colour as it is selected.
pub enum Color {
    /// Red, green and blue.
    Exact(nat, nat, nat),
    /// A place in the palette of 256.
    Indexed(nat),
}

/// A cell: the colours of its upper and lower half.
pub type Cell = (Option<Color>, Option<Color>);

/// What a terminal holds: the selected colours, the rows that are complete from
/// the top on, and the cells of the row in which the cursor stands.
#[verifier::ext_equal]
pub struct Screen {
    pub fg: Option<Color>,
    pub bg: Option<Color>,
    pub rows: Seq<Seq<Cell>>,
    pub row: Seq<Cell>,
}

/// The place of the first character of `s` that can end a control sequence, or
/// the length where there is none.
pub open spec fn final_at(s: Seq<char>) -> int
    decreases s.len(),
{
    if s.len() == 0 || s[0] >= '@' {
        0
    } else {
        1 + final_at(s.drop_first())
    }
}

/// The colour that the parameters of a colour selection stand for.
pub open spec fn color_of(list: Seq<Seq<char>>) -> Option<Color> {
    if list.len() == 5 && list[1] == seq!['2'] {
        Some(Color::Exact(numeral(list[2]), numeral(list[3]), numeral(list[4])))
    } else if list.len() == 3 && list[1] == seq!['5'] {
        Some(Color::Indexed(numeral(list[2])))
    } else {
        None
    }
}

impl Screen {
    /// A control sequence is carried out: `H` homes the cursor, so that what
    /// follows overdraws the screen, and `m` with `38` or `48` selects a colour.
    pub open spec fn control(self, params: Seq<char>, end: char) -> Screen {
        let list = split(params, ';');
        if end == 'H' {
            Screen { rows: seq![], row: seq![], ..self }
        } else if end == 'm' && list[0] == seq!['3', '8'] {
            Screen { fg: color_of(list), ..self }
        } else if end == 'm' && list[0] == seq!['4', '8'] {
            Screen { bg: color_of(list), ..self }
        } else {
            self
        }
    }

    /// A block shows the selected foreground in the upper half of its cell and
    /// the selected background in the lower half.
    pub open spec fn block(self) -> Screen {
        Screen { row: self.row.push((self.fg, self.bg)), ..self }
    }

    /// The row is complete.
    pub open spec fn newline(self) -> Screen {
        Screen { rows: self.rows.push(self.row), row: seq![], ..self }
    }

    /// The screen once `text` was written to it.
    pub open spec fn read(self, text: Seq<char>) -> Screen
        decreases text.len(),
    {
        if text.len() == 0 {
            self
        } else if text.len() >= 2 && text[0] == '\x1b' && text[1] == '[' {
            let body = text.skip(2);
            let end = final_at(body);
            if 0 <= end < body.len() {
                self.control(body.take(end), body[end]).read(body.skip(end + 1))
            } else {
                self
            }
        } else if text.len() >= 2 && text[0] == '\r' && text[1] == '\n' {
            self.newline().read(text.skip(2))
        } else if text[0] == '\u{2580}' {
            self.block().read(text.drop_first())
        } else {
            self.read(text.drop_first())
        }
    }
}

/// The colour by which `rgb` is shown.
pub open spec fn shade(depth: ColorDepth, rgb: Rgb) -> Color {
    match depth {
        ColorDepth::Ansi256 => Color::Indexed(ansi256_index(rgb.packed() as u32) as nat),
        ColorDepth::Truecolor => Color::Exact(rgb.0 as nat, rgb.1 as nat, rgb.2 as nat),
    }
}

/// The cells that a frame with these pixels is to fill: row `r` shows, column by
/// column, the pixels of rows `2 * r` and `2 * r + 1` of the frame.
pub open spec fn picture(depth: ColorDepth, pixels: Seq<u8>) -> Seq<Seq<Cell>> {
    Seq::new(
        NTSC_HEIGHT as nat / 2,
        |r: int|
            Seq::new(
                NTSC_WIDTH as nat,
                |c: int|
                    (
                        Some(shade(depth, pixel(pixels, 2 * r, c))),
                        Some(shade(depth, pixel(pixels, 2 * r + 1, c))),
                    ),
            ),
    )
}

/// What a step does to the screen.
spec fn drawn(depth: ColorDepth, screen: Screen, mark: Mark) -> Screen {
    match mark {
        Mark::Fg(rgb) => Screen { fg: Some(shade(depth, rgb)), ..screen },
        Mark::Bg(rgb) => Screen { bg: Some(shade(depth, rgb)), ..screen },
        Mark::Block => screen.block(),
        Mark::Newline => screen.newline(),
    }
}

/// The screen after these steps.
spec fn painted(depth: ColorDepth, screen: Screen, marks: Seq<Mark>) -> Screen
    decreases marks.len(),
{
    if marks.len() == 0 {
        screen
    } else {
        drawn(depth, painted(depth, screen, marks.drop_last()), marks.last())
    }
}

proof fn lemma_final_at(params: Seq<char>, rest: Seq<char>)
    requires
        forall|i: int| 0 <= i < params.len() ==> #[trigger] params[i] < '@',
        rest.len() > 0,
        rest[0] >= '@',
    ensures
        final_at(params + rest) == params.len(),
    decreases params.len(),
{
    if params.len() == 0 {
        assert(params + rest =~= rest);
    } else {
        let tail = params.drop_first();
        assert forall|i: int| 0 <= i < tail.len() implies #[trigger] tail[i] < '@' by {
            assert(tail[i] == params[i + 1]);
        }
        lemma_final_at(tail, rest);
        assert((params + rest).drop_first() =~= tail + rest);
        assert((params + rest)[0] == params[0]);
    }
}

/// A control sequence that was written is carried out.
proof fn lemma_read_control(screen: Screen, params: Seq<char>, end: char, rest: Seq<char>)
    requires
        forall|i: int| 0 <= i < params.len() ==> #[trigger] params[i] < '@',
        end >= '@',
    ensures
        screen.read(seq!['\x1b', '['] + params + seq![end] + rest) == screen.control(
            params,
            end,
        ).read(rest),
{
    let text = seq!['\x1b', '['] + params + seq![end] + rest;
    let body = text.skip(2);
    assert(body =~= params + (seq![end] + rest));
    lemma_final_at(params, seq![end] + rest);
    assert(body.take(params.len() as int) =~= params);
    assert(body.skip(params.len() as int + 1) =~= rest);
    assert(body[params.len() as int] == end);
}

/// Whether `s` consists of digits.
spec fn is_digits(s: Seq<char>) -> bool {
    forall|i: int| 0 <= i < s.len() ==> '0' <= #[trigger] s[i] <= '9'
}

/// Parts of digits, put together with semicolons, are found again, and nothing
/// in them ends a control sequence.
proof fn lemma_params(before: Seq<char>, part: Seq<char>)
    requires
        is_digits(part),
        forall|i: int| 0 <= i < before.len() ==> #[trigger] before[i] < '@',
    ensures
        split(before.push(';') + part, ';') == split(before, ';').push(part),
        forall|i: int|
            0 <= i < (before.push(';') + part).len() ==> #[trigger] (before.push(';') + part)[i]
                < '@',
{
    lemma_split_more(before, part, ';');
}

/// Whether `params` consists of these parts, and of nothing that ends a control
/// sequence.
spec fn has_parts(params: Seq<char>, parts: Seq<Seq<char>>) -> bool {
    &&& split(params, ';') == parts
    &&& forall|i: int| 0 <= i < params.len() ==> #[trigger] params[i] < '@'
}

proof fn lemma_true_params(layer: Seq<char>, rgb: Rgb) -> (params: Seq<char>)
    requires
        is_digits(layer),
    ensures
        sgr_true(layer, rgb) == seq!['\x1b', '['] + params + seq!['m'],
        has_parts(
            params,
            seq![
                layer,
                seq!['2'],
                decimal(rgb.0 as nat),
                decimal(rgb.1 as nat),
                decimal(rgb.2 as nat),
            ],
        ),
{
    reveal_strlit("\x1b[");
    reveal_strlit(";2;");
    reveal_strlit(";");
    reveal_strlit("m");
    let (r, g, b) = (decimal(rgb.0 as nat), decimal(rgb.1 as nat), decimal(rgb.2 as nat));
    lemma_decimal_is_digits(rgb.0 as nat);
    lemma_decimal_is_digits(rgb.1 as nat);
    lemma_decimal_is_digits(rgb.2 as nat);
    lemma_split_one(layer, ';');
    lemma_params(layer, seq!['2']);
    let p = layer.push(';') + seq!['2'];
    lemma_params(p, r);
    let q = p.push(';') + r;
    lemma_params(q, g);
    let s = q.push(';') + g;
    lemma_params(s, b);
    let t = s.push(';') + b;
    assert(split(t, ';') =~= seq![layer, seq!['2'], r, g, b]);
    assert(sgr_true(layer, rgb) =~= seq!['\x1b', '['] + t + seq!['m']) by {
        assert("\x1b["@ =~= seq!['\x1b', '[']);
        assert("m"@ =~= seq!['m']);
        assert(p =~= layer + seq![';', '2']);
        assert(layer + ";2;"@ =~= p.push(';'));
        assert(t =~= layer + ";2;"@ + r + ";"@ + g + ";"@ + b);
    }
    t
}

proof fn lemma_256_params(layer: Seq<char>, index: u8) -> (params: Seq<char>)
    requires
        is_digits(layer),
    ensures
        sgr_256(layer, index) == seq!['\x1b', '['] + params + seq!['m'],
        has_parts(params, seq![layer, seq!['5'], decimal(index as nat)]),
{
    reveal_strlit("\x1b[");
    reveal_strlit(";5;");
    reveal_strlit("m");
    let n = decimal(index as nat);
    lemma_decimal_is_digits(index as nat);
    lemma_split_one(layer, ';');
    lemma_params(layer, seq!['5']);
    let p = layer.push(';') + seq!['5'];
    lemma_params(p, n);
    let q = p.push(';') + n;
    assert(split(q, ';') =~= seq![layer, seq!['5'], n]);
    assert(sgr_256(layer, index) =~= seq!['\x1b', '['] + q + seq!['m']) by {
        assert("\x1b["@ =~= seq!['\x1b', '[']);
        assert("m"@ =~= seq!['m']);
        assert(layer + ";5;"@ =~= p.push(';'));
    }
    q
}

/// Parameters that stand for a colour select it.
proof fn lemma_select(screen: Screen, params: Seq<char>, layer: Seq<char>, rest: Seq<char>)
    requires
        has_parts(params, split(params, ';')),
        split(params, ';').len() > 0,
        split(params, ';')[0] == layer,
        layer == "38"@ || layer == "48"@,
    ensures
        ({
            let color = color_of(split(params, ';'));
            screen.read(seq!['\x1b', '['] + params + seq!['m'] + rest) == (if layer == "38"@ {
                Screen { fg: color, ..screen }
            } else {
                Screen { bg: color, ..screen }
            }).read(rest)
        }),
{
    reveal_strlit("38");
    reveal_strlit("48");
    assert("38"@ =~= seq!['3', '8']);
    assert("48"@ =~= seq!['4', '8']);
    assert(seq!['3', '8'][0] != seq!['4', '8'][0]);
    lemma_read_control(screen, params, 'm', rest);
}

/// Selecting a colour selects the shade of it.
proof fn lemma_read_color(screen: Screen, depth: ColorDepth, mark: Mark, rest: Seq<char>)
    requires
        mark is Fg || mark is Bg,
    ensures
        screen.read(mark_text(depth, mark) + rest) == drawn(depth, screen, mark).read(rest),
{
    reveal_strlit("38");
    reveal_strlit("48");
    let (layer, rgb) = match mark {
        Mark::Fg(rgb) => ("38"@, rgb),
        Mark::Bg(rgb) => ("48"@, rgb),
        _ => arbitrary(),
    };
    assert(layer == "38"@ <==> mark is Fg) by {
        assert("38"@[0] == '3' && "48"@[0] == '4');
    }
    match depth {
        ColorDepth::Truecolor => {
            decimal_is_read_back(rgb.0 as nat);
            decimal_is_read_back(rgb.1 as nat);
            decimal_is_read_back(rgb.2 as nat);
            let params = lemma_true_params(layer, rgb);
            lemma_select(screen, params, layer, rest);
        },
        ColorDepth::Ansi256 => {
            let index = ansi256_index(rgb.packed() as u32);
            decimal_is_read_back(index as nat);
            let params = lemma_256_params(layer, index);
            lemma_select(screen, params, layer, rest);
        },
    }
}

/// A step that was written is carried out.
proof fn lemma_read_mark(screen: Screen, depth: ColorDepth, mark: Mark, rest: Seq<char>)
    ensures
        screen.read(mark_text(depth, mark) + rest) == drawn(depth, screen, mark).read(rest),
{
    let text = mark_text(depth, mark) + rest;
    match mark {
        Mark::Block => {
            reveal_strlit("\u{2580}");
            assert(UPPER_BLOCK@ =~= seq!['\u{2580}']);
            assert(text.drop_first() =~= rest);
        },
        Mark::Newline => {
            reveal_strlit("\r\n");
            assert(NEWLINE@ =~= seq!['\r', '\n']);
            assert(text.skip(2) =~= rest);
        },
        _ => {
            lemma_read_color(screen, depth, mark, rest);
        },
    }
}

proof fn lemma_read_marks(screen: Screen, depth: ColorDepth, marks: Seq<Mark>, rest: Seq<char>)
    ensures
        screen.read(marks_text(depth, marks) + rest) == painted(depth, screen, marks).read(rest),
    decreases marks.len(),
{
    if marks.len() == 0 {
        assert(marks_text(depth, marks) + rest =~= rest);
    } else {
        let before = marks.drop_last();
        let last = mark_text(depth, marks.last());
        lemma_read_marks(screen, depth, before, last + rest);
        lemma_read_mark(painted(depth, screen, before), depth, marks.last(), rest);
        assert(marks_text(depth, marks) + rest =~= marks_text(depth, before) + (last + rest));
    }
}

proof fn lemma_painted_push(depth: ColorDepth, screen: Screen, marks: Seq<Mark>, mark: Mark)
    ensures
        painted(depth, screen, marks.push(mark)) == drawn(
            depth,
            painted(depth, screen, marks),
            mark,
        ),
{
    assert(marks.push(mark).drop_last() =~= marks);
}

/// Drawing a cell adds its two halves, whatever of their colours is selected
/// anew.
proof fn lemma_painted_step(
    depth: ColorDepth,
    screen: Screen,
    marks: Seq<Mark>,
    before: Option<(Rgb, Rgb)>,
    now: (Rgb, Rgb),
    ends_row: bool,
)
    requires
        before matches Some(b) ==> {
            let was = painted(depth, screen, marks);
            was.fg == Some(shade(depth, b.0)) && was.bg == Some(shade(depth, b.1))
        },
    ensures
        ({
            let was = painted(depth, screen, marks);
            let (fg, bg) = (Some(shade(depth, now.0)), Some(shade(depth, now.1)));
            let row = was.row.push((fg, bg));
            painted(depth, screen, marks + step_marks(before, now, ends_row)) == (Screen {
                fg,
                bg,
                rows: if ends_row {
                    was.rows.push(row)
                } else {
                    was.rows
                },
                row: if ends_row {
                    seq![]
                } else {
                    row
                },
            })
        }),
{
    let mut all = marks;
    if !(before matches Some(b) && b.0 == now.0) {
        lemma_painted_push(depth, screen, all, Mark::Fg(now.0));
        all = all.push(Mark::Fg(now.0));
    }
    if !(before matches Some(b) && b.1 == now.1) {
        lemma_painted_push(depth, screen, all, Mark::Bg(now.1));
        all = all.push(Mark::Bg(now.1));
    }
    lemma_painted_push(depth, screen, all, Mark::Block);
    all = all.push(Mark::Block);
    if ends_row {
        lemma_painted_push(depth, screen, all, Mark::Newline);
        all = all.push(Mark::Newline);
    }
    assert(all =~= marks + step_marks(before, now, ends_row));
}

proof fn lemma_painted_cells(depth: ColorDepth, screen: Screen, pixels: Seq<u8>, n: nat)
    requires
        n <= cells(),
        screen.rows.len() == 0,
        screen.row.len() == 0,
    ensures
        ({
            let after = painted(depth, screen, marks(pixels, n));
            let w = NTSC_WIDTH as int;
            &&& n > 0 ==> after.fg == Some(shade(depth, upper(pixels, n - 1))) && after.bg == Some(
                shade(depth, lower(pixels, n - 1)),
            )
            &&& after.rows =~= picture(depth, pixels).take(n as int / w)
            &&& after.row.len() == n as int % w
            &&& forall|c: int|
                0 <= c < after.row.len() ==> #[trigger] after.row[c] == (
                    Some(shade(depth, pixel(pixels, 2 * (n as int / w), c))),
                    Some(shade(depth, pixel(pixels, 2 * (n as int / w) + 1, c))),
                )
        }),
    decreases n,
{
    if n > 0 {
        let k = n - 1;
        let w = NTSC_WIDTH as int;
        lemma_painted_cells(depth, screen, pixels, k as nat);
        let done = marks(pixels, k as nat);
        let was = painted(depth, screen, done);
        let ends_row = k % w == w - 1;
        let before = if k == 0 {
            None
        } else {
            Some(halves(pixels, k - 1))
        };
        lemma_painted_step(depth, screen, done, before, halves(pixels, k), ends_row);
        if ends_row {
            assert(n as int / w == k / w + 1 && n as int % w == 0);
            let row = was.row.push(
                (Some(shade(depth, upper(pixels, k))), Some(shade(depth, lower(pixels, k)))),
            );
            assert(row =~= picture(depth, pixels)[k / w]);
        } else {
            assert(n as int / w == k / w && n as int % w == k % w + 1);
        }
    }
}

/// Whatever a terminal shows, once the text of a frame was written to it every
/// pixel is in its place: row `r` of the screen holds, column by column, the
/// shades of the pixels of rows `2 * r` and `2 * r + 1` of the frame.
pub proof fn every_pixel_is_shown(screen: Screen, depth: ColorDepth, pixels: Seq<u8>)
    ensures
        screen.read(halfblock_text(depth, pixels)).rows == picture(depth, pixels),
        screen.read(halfblock_text(depth, pixels)).row.len() == 0,
{
    reveal_strlit("\x1b[H");
    let drawing = marks(pixels, cells());
    let text = marks_text(depth, drawing);
    let home = screen.control(seq![], 'H');
    assert(CURSOR_HOME@ + text =~= seq!['\x1b', '['] + seq![] + seq!['H'] + text);
    lemma_read_control(screen, seq![], 'H', text);
    lemma_read_marks(home, depth, drawing, seq![]);
    assert(text + seq![] =~= text);
    lemma_painted_cells(depth, home, pixels, cells());
    assert(picture(depth, pixels).take(NTSC_HEIGHT as int / 2) =~= picture(depth, pixels));
}

/// With exact colours, the frame can be read back from the screen: frames that
/// give the same text have the same pixels.
pub proof fn exact_colors_lose_nothing(a: Seq<u8>, b: Seq<u8>)
    requires
        is_frame(a),
        is_frame(b),
        halfblock_text(ColorDepth::Truecolor, a) == halfblock_text(ColorDepth::Truecolor, b),
    ensures
        a == b,
{
    let screen = Screen { fg: None, bg: None, rows: seq![], row: seq![] };
    let depth = ColorDepth::Truecolor;
    every_pixel_is_shown(screen, depth, a);
    every_pixel_is_shown(screen, depth, b);
    assert forall|i: int| 0 <= i < a.len() implies a[i] == b[i] by {
        let at = i / 3;
        let (y, x) = (at / NTSC_WIDTH as int, at % NTSC_WIDTH as int);
        let r = y / 2;
        assert(picture(depth, a)[r][x] == picture(depth, b)[r][x]);
        assert(2 * r == y || 2 * r + 1 == y);
        assert(shade(depth, pixel(a, y, x)) == shade(depth, pixel(b, y, x)));
        assert(pixel(a, y, x) == pixel(b, y, x));
        assert(y * NTSC_WIDTH + x == at);
    }
    assert(a =~= b);
}

/// Whatever a terminal shows, once the text of a frame was written to it there are
/// 112 rows of 240 cells, and the upper or lower half of the cell at each pixel's
/// place has the colour of the pixel's three bytes: exactly, or by the place in the
/// palette that stands for them.
pub proof fn every_byte_is_shown(
    screen: Screen,
    depth: ColorDepth,
    pixels: Seq<u8>,
    row: int,
    col: int,
)
    requires
        0 <= row < 224,
        0 <= col < 240,
    ensures
        ({
            let after = screen.read(halfblock_text(depth, pixels));
            let cell = after.rows[row / 2][col];
            let at = (row * 240 + col) * 3;
            let (r, g, b) = (pixels[at] as nat, pixels[at + 1] as nat, pixels[at + 2] as nat);
            &&& after.rows.len() == 112
            &&& after.rows[row / 2].len() == 240
            &&& after.row.len() == 0
            &&& (if row % 2 == 0 {
                cell.0
            } else {
                cell.1
            }) == Some(
                match depth {
                    ColorDepth::Truecolor => Color::Exact(r, g, b),
                    ColorDepth::Ansi256 => Color::Indexed(
                        ansi256_index((r * 65536 + g * 256 + b) as u32) as nat,
                    ),
                },
            )
        }),
{
    every_pixel_is_shown(screen, depth, pixels);
    assert(row == 2 * (row / 2) || row == 2 * (row / 2) + 1);
}

/// The colour that is selected as foreground after these steps.
pub open spec fn selected_fg(marks: Seq<Mark>) -> Option<Rgb>
    decreases marks.len(),
{
    if marks.len() == 0 {
        None
    } else if marks.last() is Fg {
        Some(marks.last()->Fg_0)
    } else {
        selected_fg(marks.drop_last())
    }
}

/// The colour that is selected as background after these steps.
pub open spec fn selected_bg(marks: Seq<Mark>) -> Option<Rgb>
    decreases marks.len(),
{
    if marks.len() == 0 {
        None
    } else if marks.last() is Bg {
        Some(marks.last()->Bg_0)
    } else {
        selected_bg(marks.drop_last())
    }
}

/// No step selects what is selected already, a foreground is followed by a
/// background or a block, and a background by a block.
pub open spec fn is_terse(marks: Seq<Mark>) -> bool {
    forall|i: int|
        #![trigger marks[i]]
        0 <= i < marks.len() ==> match marks[i] {
            Mark::Fg(rgb) => {
                &&& selected_fg(marks.take(i)) != Some(rgb)
                &&& i + 1 < marks.len()
                &&& marks[i + 1] is Bg || marks[i + 1] is Block
            },
            Mark::Bg(rgb) => {
                &&& selected_bg(marks.take(i)) != Some(rgb)
                &&& i + 1 < marks.len()
                &&& marks[i + 1] is Block
            },
            _ => true,
        }
}

proof fn lemma_selected_push(marks: Seq<Mark>, mark: Mark)
    ensures
        selected_fg(marks.push(mark)) == (if mark is Fg {
            Some(mark->Fg_0)
        } else {
            selected_fg(marks)
        }),
        selected_bg(marks.push(mark)) == (if mark is Bg {
            Some(mark->Bg_0)
        } else {
            selected_bg(marks)
        }),
{
    assert(marks.push(mark).drop_last() =~= marks);
}

proof fn lemma_terse_step(
    marks: Seq<Mark>,
    before: Option<(Rgb, Rgb)>,
    now: (Rgb, Rgb),
    ends_row: bool,
)
    requires
        is_terse(marks),
        match before {
            Some(b) => selected_fg(marks) == Some(b.0) && selected_bg(marks) == Some(b.1),
            None => selected_fg(marks) is None && selected_bg(marks) is None,
        },
    ensures
        ({
            let after = marks + step_marks(before, now, ends_row);
            &&& is_terse(after)
            &&& selected_fg(after) == Some(now.0)
            &&& selected_bg(after) == Some(now.1)
        }),
{
    let after = marks + step_marks(before, now, ends_row);
    let new_fg = !(before matches Some(b) && b.0 == now.0);
    let new_bg = !(before matches Some(b) && b.1 == now.1);
    let a = if new_fg {
        marks.push(Mark::Fg(now.0))
    } else {
        marks
    };
    let b = if new_bg {
        a.push(Mark::Bg(now.1))
    } else {
        a
    };
    let c = b.push(Mark::Block);
    let d = if ends_row {
        c.push(Mark::Newline)
    } else {
        c
    };
    lemma_selected_push(marks, Mark::Fg(now.0));
    lemma_selected_push(a, Mark::Bg(now.1));
    lemma_selected_push(b, Mark::Block);
    lemma_selected_push(c, Mark::Newline);
    assert(after =~= d);
    assert forall|i: int|
        #![trigger after[i]]
        0 <= i < after.len() implies match after[i] {
        Mark::Fg(rgb) => {
            &&& selected_fg(after.take(i)) != Some(rgb)
            &&& i + 1 < after.len()
            &&& after[i + 1] is Bg || after[i + 1] is Block
        },
        Mark::Bg(rgb) => {
            &&& selected_bg(after.take(i)) != Some(rgb)
            &&& i + 1 < after.len()
            &&& after[i + 1] is Block
        },
        _ => true,
    } by {
        if i < marks.len() {
            assert(after[i] == marks[i]);
            assert(after.take(i) =~= marks.take(i));
            if i + 1 < marks.len() {
                assert(after[i + 1] == marks[i + 1]);
            }
        } else if i == marks.len() && new_fg {
            assert(after.take(i) =~= marks);
        } else if i == a.len() && new_bg {
            assert(after.take(i) =~= a);
        }
    }
}

proof fn lemma_terse_cells(pixels: Seq<u8>, n: nat)
    ensures
        is_terse(marks(pixels, n)),
        selected_fg(marks(pixels, n)) == (if n == 0 {
            None
        } else {
            Some(upper(pixels, n - 1))
        }),
        selected_bg(marks(pixels, n)) == (if n == 0 {
            None
        } else {
            Some(lower(pixels, n - 1))
        }),
    decreases n,
{
    if n > 0 {
        let k = n - 1;
        lemma_terse_cells(pixels, k as nat);
        lemma_terse_step(
            marks(pixels, k as nat),
            if k == 0 {
                None
            } else {
                Some(halves(pixels, k - 1))
            },
            halves(pixels, k),
            k % NTSC_WIDTH as int == NTSC_WIDTH - 1,
        );
    }
}

/// A frame is drawn without selecting a colour that is selected already, and a
/// colour is only selected directly before a block.
pub proof fn no_color_is_selected_twice(pixels: Seq<u8>)
    ensures
        is_terse(marks(pixels, cells())),
{
    lemma_terse_cells(pixels, cells());
}

/// How the steps are written: one behind the other, a colour by its escape on layer
/// 38 for the foreground and 48 for the background, a block by the upper half
/// block, and the end of a row by a carriage return and a line feed; the text
/// begins by homing the cursor.
pub proof fn steps_are_written_in_order(
    depth: ColorDepth,
    pixels: Seq<u8>,
    before: Seq<Mark>,
    mark: Mark,
)
    ensures
        marks_text(depth, seq![]).len() == 0,
        marks_text(depth, before.push(mark)) == marks_text(depth, before) + match mark {
            Mark::Fg(rgb) => match depth {
                ColorDepth::Truecolor => sgr_true(seq!['3', '8'], rgb),
                ColorDepth::Ansi256 => sgr_256(
                    seq!['3', '8'],
                    ansi256_index((rgb.0 * 65536 + rgb.1 * 256 + rgb.2) as u32),
                ),
            },
            Mark::Bg(rgb) => match depth {
                ColorDepth::Truecolor => sgr_true(seq!['4', '8'], rgb),
                ColorDepth::Ansi256 => sgr_256(
                    seq!['4', '8'],
                    ansi256_index((rgb.0 * 65536 + rgb.1 * 256 + rgb.2) as u32),
                ),
            },
            Mark::Block => seq!['\u{2580}'],
            Mark::Newline => seq!['\r', '\n'],
        },
        halfblock_text(depth, pixels) == seq!['\x1b', '[', 'H'] + marks_text(
            depth,
            marks(pixels, 240 * 112),
        ),
{
    reveal_strlit("38");
    reveal_strlit("48");
    reveal_strlit("\u{2580}");
    reveal_strlit("\r\n");
    reveal_strlit("\x1b[H");
    assert("38"@ =~= seq!['3', '8']);
    assert("48"@ =~= seq!['4', '8']);
    assert(UPPER_BLOCK@ =~= seq!['\u{2580}']);
    assert(NEWLINE@ =~= seq!['\r', '\n']);
    assert(CURSOR_HOME@ =~= seq!['\x1b', '[', 'H']);
    assert(before.push(mark).drop_last() =~= before);
}

/// Every frame can be rendered, and what is rendered shows every byte of it, in
/// UTF-8, on whatever the terminal showed before.
pub proof fn rendered_frames_are_shown(
    renderer: HalfblockRenderer,
    screen: Screen,
    pixels: Seq<u8>,
    out: Seq<u8>,
    row: int,
    col: int,
)
    requires
        renderer.renders(pixels, out),
        0 <= row < 224,
        0 <= col < 240,
    ensures
        renderer.can_render(pixels),
        ({
            let after = screen.read(decode_utf8(out));
            let cell = after.rows[row / 2][col];
            let at = (row * 240 + col) * 3;
            let (r, g, b) = (pixels[at] as nat, pixels[at + 1] as nat, pixels[at + 2] as nat);
            &&& after.rows.len() == 112
            &&& after.rows[row / 2].len() == 240
            &&& (if row % 2 == 0 {
                cell.0
            } else {
                cell.1
            }) == Some(
                match renderer@ {
                    ColorDepth::Truecolor => Color::Exact(r, g, b),
                    ColorDepth::Ansi256 => Color::Indexed(
                        ansi256_index((r * 65536 + g * 256 + b) as u32) as nat,
                    ),
                },
            )
        }),
{
    encode_utf8_decode_utf8(halfblock_text(renderer@, pixels));
    every_byte_is_shown(screen, renderer@, pixels, row, col);
}

} // verus!
