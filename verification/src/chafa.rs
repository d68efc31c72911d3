//! Rendering by way of chafa: what is asked of it, and what is made of its
//! output. There are two ways to it, the `chafa` command and libchafa.

use vstd::prelude::*;
use vstd::slice::slice_subrange;
use vstd::string::*;
use vstd::utf8::*;

use crate::ansi::homes_cursor;
use crate::ansi::CURSOR_HOME_BYTES;
use crate::bytes::push_bytes;
use crate::codec::frame_png;
use crate::codec::png_rgb8;
use crate::frame::RenderFrame;
use crate::frame::NTSC_HEIGHT;
use crate::frame::NTSC_WIDTH;
use crate::text::decimal;
use crate::text::lemma_decimal_is_digits;
use crate::text::lemma_encode_concat;
use crate::text::push_decimal;
use crate::text::same_text;

verus! {

/// Tunable knobs for [`ChafaRenderer`]. These are translated to the matching
/// `chafa` CLI flags by the renderer: not a literal passthrough, just a
/// curated subset. `None` means "let chafa pick its own default."
#[derive(Debug, Clone)]
pub struct ChafaOpts {
    /// chafa `--format`. Recognized: `symbols`, `sixels`, `kitty`, `iterm`.
    pub format: Option<String>,
    /// chafa `--symbols`. E.g. `octant`, `sextant`, `vhalf`, `block`, etc.
    pub symbols: Option<String>,
    /// chafa `--scale`. A number (e.g. `2`, `1.5`) or `max` (fit to view).
    pub scale: Option<String>,
}

impl Default for ChafaOpts {
    fn default() -> (opts: Self)
        ensures
            opts == (ChafaOpts { format: None, symbols: None, scale: None }),
    {
        ChafaOpts { format: None, symbols: None, scale: None }
    }
}

/// A size in cells, no side of which is zero.
pub open spec fn at_least_one(n: u16) -> u16 {
    if n == 0 {
        1
    } else {
        n
    }
}

fn max_one(n: u16) -> (m: u16)
    ensures
        m == at_least_one(n),
{
    if n == 0 {
        1
    } else {
        n
    }
}

/// `text` with a carriage return put before each line feed.
pub open spec fn crlf(text: Seq<u8>) -> Seq<u8>
    decreases text.len(),
{
    if text.len() == 0 {
        Seq::empty()
    } else if text.last() == 0x0a {
        crlf(text.drop_last()) + seq![0x0d, 0x0a]
    } else {
        crlf(text.drop_last()).push(text.last())
    }
}

proof fn lemma_crlf_without_newline(text: Seq<u8>, start: int, end: int)
    requires
        0 <= start <= end <= text.len(),
        forall|i: int| start <= i < end ==> text[i] != 0x0a,
    ensures
        crlf(text.take(end)) == crlf(text.take(start)) + text.subrange(start, end),
    decreases end - start,
{
    if start < end {
        lemma_crlf_without_newline(text, start, end - 1);
        assert(text.take(end).drop_last() =~= text.take(end - 1));
        assert(text.subrange(start, end) =~= text.subrange(start, end - 1).push(text[end - 1]));
        assert(crlf(text.take(end)) =~= crlf(text.take(start)) + text.subrange(start, end));
    } else {
        assert(text.subrange(start, end) =~= Seq::empty());
    }
}

/// Appends `text` with LF translated to CRLF (raw-mode terminals don't map
/// NL to CRNL).
fn push_crlf(out: &mut Vec<u8>, text: &[u8])
    ensures
        final(out)@ == old(out)@ + crlf(text@),
{
    let ghost before = out@;
    let mut start: usize = 0;
    assert(crlf(text@.take(0)) =~= Seq::<u8>::empty());
    assert(out@ =~= before + crlf(text@.take(0)));
    for i in 0..text.len()
        invariant
            start <= i,
            out@ == before + crlf(text@.take(start as int)),
            forall|j: int| start <= j < i ==> text@[j] != 0x0a,
    {
        if text[i] == 0x0a {
            push_bytes(out, slice_subrange(text, start, i));
            push_bytes(out, [0x0d, 0x0a].as_slice());
            proof {
                lemma_crlf_without_newline(text@, start as int, i as int);
                assert(text@.take(i + 1).drop_last() =~= text@.take(i as int));
                assert(text@.take(i + 1).last() == 0x0a);
                assert(out@ =~= before + crlf(text@.take(i + 1)));
            }
            start = i + 1;
        }
    }
    push_bytes(out, slice_subrange(text, start, text.len()));
    proof {
        lemma_crlf_without_newline(text@, start as int, text@.len() as int);
        assert(text@.take(text@.len() as int) =~= text@);
        assert(out@ =~= before + crlf(text@));
    }
}

/// The bytes that show what chafa printed: cursor home, then its lines, if there
/// is any output.
pub open spec fn shown(output: Option<Seq<u8>>) -> Seq<u8> {
    match output {
        Some(text) => CURSOR_HOME_BYTES@ + crlf(text),
        None => CURSOR_HOME_BYTES@,
    }
}

fn show(output: Option<Vec<u8>>) -> (out: Vec<u8>)
    ensures
        out@ == shown(
            match output {
                Some(text) => Some(text@),
                None => None,
            },
        ),
{
    let mut out: Vec<u8> = Vec::new();
    push_bytes(&mut out, CURSOR_HOME_BYTES.as_slice());
    if let Some(text) = output {
        push_crlf(&mut out, text.as_slice());
    }
    out
}

/// What a chafa renderer works with: its options and the current terminal size
/// in cells.
pub struct ChafaState {
    pub opts: ChafaOpts,
    pub cols: u16,
    pub rows: u16,
}

/// A flag with its value, where there is one.
pub open spec fn flag(name: Seq<char>, value: Option<String>) -> Seq<Seq<char>> {
    match value {
        Some(v) => seq![name, v@],
        None => seq![],
    }
}

impl ChafaState {
    /// The state once the terminal has this size.
    pub open spec fn resized(self, cols: u16, rows: u16) -> ChafaState {
        ChafaState { opts: self.opts, cols: at_least_one(cols), rows: at_least_one(rows) }
    }

    /// The arguments of the `chafa` command.
    pub open spec fn args(self) -> Seq<Seq<char>> {
        seq![
            "--polite"@,
            "on"@,
            "--probe"@,
            "off"@,
            "--view-size"@,
            decimal(at_least_one(self.cols) as nat) + "x"@ + decimal(at_least_one(self.rows) as nat),
        ] + flag("--format"@, self.opts.format) + flag("--symbols"@, self.opts.symbols) + flag(
            "--scale"@,
            self.opts.scale,
        ) + seq!["-"@]
    }
}

/// The texts of `args`.
pub open spec fn texts(args: Seq<String>) -> Seq<Seq<char>> {
    args.map_values(|s: String| s@)
}

fn push_arg(args: &mut Vec<String>, arg: &str)
    ensures
        texts(final(args)@) == texts(old(args)@).push(arg@),
{
    args.push(arg.to_owned());
    assert(texts(args@) =~= texts(old(args)@).push(arg@));
}

fn push_flag(args: &mut Vec<String>, name: &str, value: &Option<String>)
    ensures
        texts(final(args)@) == texts(old(args)@) + flag(name@, *value),
{
    if let Some(v) = value {
        push_arg(args, name);
        push_arg(args, v.as_str());
    }
    assert(texts(args@) =~= texts(old(args)@) + flag(name@, *value));
}

/// Renders frames by shelling out to the `chafa` CLI per frame.
///
/// chafa is a sophisticated terminal image renderer (gamma-correct downscaling,
/// 2-color per-cell quantization, sub-cell glyph selection across half-blocks /
/// quadrants / sextants / octants / braille). It's far higher fidelity than
/// our halfblock renderer for arbitrary terminal sizes, at the cost of process
/// spawn + PNG encode per frame, so cap fps modestly when using it.
///
/// This is the part of it that decides: what the command reads, with which
/// arguments it runs, and what is shown of its output.
pub struct ChafaRenderer {
    opts: ChafaOpts,
    cols: u16,
    rows: u16,
}

impl View for ChafaRenderer {
    type V = ChafaState;

    closed spec fn view(&self) -> ChafaState {
        ChafaState { opts: self.opts, cols: self.cols, rows: self.rows }
    }
}

impl ChafaRenderer {
    /// The terminal is taken to have 80 columns and 24 rows until
    /// [`ChafaRenderer::on_resize`] is called.
    pub fn new(opts: ChafaOpts) -> (renderer: Self)
        ensures
            renderer@ == (ChafaState { opts, cols: 80, rows: 24 }),
    {
        ChafaRenderer { opts, cols: 80, rows: 24 }
    }

    /// The chafa arguments for one frame.
    pub fn build_args(&self) -> (args: Vec<String>)
        ensures
            texts(args@) == self@.args(),
    {
        let mut args: Vec<String> = Vec::new();
        assert(texts(args@) =~= seq![]);
        // Polite mode strips chafa's own cursor hide/show + alt-screen escapes
        // so the output composes cleanly with the host's own terminal control.
        push_arg(&mut args, "--polite");
        push_arg(&mut args, "on");
        // Disable terminal capability probes. Despite piped stdio, chafa would
        // otherwise open /dev/tty and send device-attribute queries, then wait
        // for replies, which land in our own stdin.
        push_arg(&mut args, "--probe");
        push_arg(&mut args, "off");
        // Explicit view size, required since a piped stdout means chafa can't
        // probe the TTY for it.
        push_arg(&mut args, "--view-size");
        let mut size = String::new();
        push_decimal(&mut size, max_one(self.cols) as u64);
        size.append("x");
        push_decimal(&mut size, max_one(self.rows) as u64);
        assert(size@ =~= decimal(at_least_one(self.cols) as nat) + "x"@ + decimal(
            at_least_one(self.rows) as nat,
        ));
        push_arg(&mut args, size.as_str());
        assert(texts(args@) =~= seq![
            "--polite"@,
            "on"@,
            "--probe"@,
            "off"@,
            "--view-size"@,
            size@,
        ]);
        push_flag(&mut args, "--format", &self.opts.format);
        push_flag(&mut args, "--symbols", &self.opts.symbols);
        push_flag(&mut args, "--scale", &self.opts.scale);
        // Read image from stdin.
        push_arg(&mut args, "-");
        assert(texts(args@) =~= self@.args());
        args
    }

    /// What chafa reads from its stdin: the frame as a PNG file, from which it
    /// figures out the input dimensions.
    pub fn input(&self, frame: &RenderFrame) -> (file: Vec<u8>)
        ensures
            file@ == png_rgb8(frame@, NTSC_WIDTH as u32, NTSC_HEIGHT as u32),
    {
        frame_png(frame)
    }

    /// The bytes that show what chafa printed. Where it could not be run to its
    /// end, they only home the cursor.
    pub fn frame_bytes(&self, output: Option<Vec<u8>>) -> (out: Vec<u8>)
        ensures
            out@ == shown(
                match output {
                    Some(text) => Some(text@),
                    None => None,
                },
            ),
    {
        show(output)
    }

    /// Takes up the current terminal size.
    pub fn on_resize(&mut self, cols: u16, rows: u16)
        ensures
            final(self)@ == old(self)@.resized(cols, rows),
    {
        self.cols = max_one(cols);
        self.rows = max_one(rows);
    }
}

/// What libchafa is to fill its symbol map with.
pub enum SymbolChoice {
    /// All symbols it has.
    All,
    /// The symbols that these selectors choose; all of them where it does not
    /// understand the selectors.
    Selectors(String),
    /// No symbols: the selectors cannot be handed to a C function.
    Nothing,
}

/// How libchafa is to show pixels.
#[derive(Debug, Clone, Copy, PartialEq, Eq, Structural)]
pub enum PixelMode {
    Symbols,
    Sixels,
    Kitty,
    Iterm2,
}

/// What a libchafa canvas is built from.
pub struct CanvasPlan {
    pub symbols: SymbolChoice,
    /// The number of cells to fit the picture into.
    pub cols: i32,
    pub rows: i32,
    /// By what the fitted size is to be divided, if it is a positive number;
    /// `None` leaves the fitted size alone.
    pub shrink: Option<String>,
    pub pixel_mode: PixelMode,
}

/// The pixel mode that `--format` asks for. The whole point of going through
/// chafa is its cell-based rendering, so that is what any other value means.
pub open spec fn pixel_mode(format: Option<String>) -> PixelMode {
    match format {
        Some(f) => if f@ == "sixels"@ {
            PixelMode::Sixels
        } else if f@ == "kitty"@ {
            PixelMode::Kitty
        } else if f@ == "iterm"@ || f@ == "iterm2"@ {
            PixelMode::Iterm2
        } else {
            PixelMode::Symbols
        },
        None => PixelMode::Symbols,
    }
}

impl ChafaState {
    /// `choice` is what the options select. The selectors of libchafa add to
    /// what is there, while those of the CLI start from nothing, hence the
    /// `none` in front. A text with a zero byte is no C string.
    pub open spec fn chooses(self, choice: SymbolChoice) -> bool {
        match self.opts.symbols {
            None => choice is All,
            Some(sel) => if encode_utf8("none,"@ + sel@).contains(0) {
                choice is Nothing
            } else {
                choice matches SymbolChoice::Selectors(s) && s@ == "none,"@ + sel@
            },
        }
    }

    /// `plan` is what the canvas is to be built from.
    pub open spec fn plans(self, plan: CanvasPlan) -> bool {
        &&& self.chooses(plan.symbols)
        &&& plan.cols == at_least_one(self.cols)
        &&& plan.rows == at_least_one(self.rows)
        &&& plan.pixel_mode == pixel_mode(self.opts.format)
        &&& match self.opts.scale {
            Some(s) => if s@ == "max"@ {
                plan.shrink is None
            } else {
                plan.shrink matches Some(t) && t@ == s@
            },
            None => plan.shrink is None,
        }
    }
}

fn contains_zero(bytes: &[u8]) -> (found: bool)
    ensures
        found == bytes@.contains(0),
{
    for i in 0..bytes.len()
        invariant
            forall|j: int| 0 <= j < i ==> bytes@[j] != 0,
    {
        if bytes[i] == 0 {
            return true;
        }
    }
    false
}

/// In-process chafa renderer: the part of it that decides, what a canvas is built
/// from and what is shown of its output.
///
/// Wins over the subprocess [`ChafaRenderer`]: no `fork`/`exec` per frame, no PNG
/// encode round-trip, no terminal capability probes, and nothing to wait on at
/// shutdown.
pub struct ChafaLibRenderer {
    opts: ChafaOpts,
    cols: u16,
    rows: u16,
}

impl View for ChafaLibRenderer {
    type V = ChafaState;

    closed spec fn view(&self) -> ChafaState {
        ChafaState { opts: self.opts, cols: self.cols, rows: self.rows }
    }
}

impl ChafaLibRenderer {
    /// The terminal is taken to have 80 columns and 24 rows until
    /// [`ChafaLibRenderer::on_resize`] is called.
    pub fn new(opts: ChafaOpts) -> (renderer: Self)
        ensures
            renderer@ == (ChafaState { opts, cols: 80, rows: 24 }),
    {
        ChafaLibRenderer { opts, cols: 80, rows: 24 }
    }

    fn symbol_choice(&self) -> (choice: SymbolChoice)
        ensures
            self@.chooses(choice),
    {
        match &self.opts.symbols {
            None => SymbolChoice::All,
            Some(sel) => {
                let mut selectors = "none,".to_owned();
                selectors.append(sel.as_str());
                if contains_zero(selectors.as_str().as_bytes()) {
                    SymbolChoice::Nothing
                } else {
                    SymbolChoice::Selectors(selectors)
                }
            },
        }
    }

    fn pixel_mode(&self) -> (mode: PixelMode)
        ensures
            mode == pixel_mode(self@.opts.format),
    {
        match &self.opts.format {
            Some(f) => {
                let f = f.as_str();
                if same_text(f, "sixels") {
                    PixelMode::Sixels
                } else if same_text(f, "kitty") {
                    PixelMode::Kitty
                } else if same_text(f, "iterm") || same_text(f, "iterm2") {
                    PixelMode::Iterm2
                } else {
                    PixelMode::Symbols
                }
            },
            None => PixelMode::Symbols,
        }
    }

    /// What the canvas is built from, for the current terminal size and the
    /// options. Done at construction and on every resize: cheap enough per
    /// resize, too expensive per frame.
    pub fn rebuild_canvas(&self) -> (plan: CanvasPlan)
        ensures
            self@.plans(plan),
    {
        let shrink = match &self.opts.scale {
            Some(s) => if same_text(s.as_str(), "max") {
                None
            } else {
                Some(s.clone())
            },
            None => None,
        };
        CanvasPlan {
            symbols: self.symbol_choice(),
            cols: max_one(self.cols) as i32,
            rows: max_one(self.rows) as i32,
            shrink,
            pixel_mode: self.pixel_mode(),
        }
    }

    /// The bytes that show what libchafa printed. Where there is no canvas or no
    /// output, they only home the cursor.
    pub fn frame_bytes(&self, output: Option<Vec<u8>>) -> (out: Vec<u8>)
        ensures
            out@ == shown(
                match output {
                    Some(text) => Some(text@),
                    None => None,
                },
            ),
    {
        show(output)
    }

    /// Takes up the current terminal size. The canvas is to be rebuilt then.
    pub fn on_resize(&mut self, cols: u16, rows: u16)
        ensures
            final(self)@ == old(self)@.resized(cols, rows),
    {
        self.cols = max_one(cols);
        self.rows = max_one(rows);
    }
}

/// `value` is `text`.
pub open spec fn holds(value: Option<String>, text: Seq<char>) -> bool {
    value matches Some(v) && v@ == text
}

/// Options that are set come as a flag with its value, and options that are not
/// set leave no trace: where no other value reads like a flag, the flag is among
/// the arguments exactly if its option is set. chafa always runs politely,
/// without probes, and reads its standard input.
pub proof fn flags_stand_for_options(state: ChafaState)
    ensures
        ({
            let (args, opts) = (state.args(), state.opts);
            &&& args[0] == "--polite"@ && args[1] == "on"@
            &&& args[2] == "--probe"@ && args[3] == "off"@
            &&& args[4] == "--view-size"@
            &&& args.last() == "-"@
            &&& opts.format matches Some(v) ==> exists|i: int|
                0 <= i < args.len() - 1 && #[trigger] args[i] == "--format"@ && args[i + 1] == v@
            &&& opts.symbols matches Some(v) ==> exists|i: int|
                0 <= i < args.len() - 1 && #[trigger] args[i] == "--symbols"@ && args[i + 1] == v@
            &&& opts.scale matches Some(v) ==> exists|i: int|
                0 <= i < args.len() - 1 && #[trigger] args[i] == "--scale"@ && args[i + 1] == v@
            &&& !holds(opts.symbols, "--format"@) && !holds(opts.scale, "--format"@) ==> (
            args.contains("--format"@) <==> opts.format is Some)
            &&& !holds(opts.format, "--symbols"@) && !holds(opts.scale, "--symbols"@) ==> (
            args.contains("--symbols"@) <==> opts.symbols is Some)
            &&& !holds(opts.format, "--scale"@) && !holds(opts.symbols, "--scale"@) ==> (
            args.contains("--scale"@) <==> opts.scale is Some)
        }),
{
    reveal_strlit("--polite");
    reveal_strlit("on");
    reveal_strlit("--probe");
    reveal_strlit("off");
    reveal_strlit("--view-size");
    reveal_strlit("x");
    reveal_strlit("--format");
    reveal_strlit("--symbols");
    reveal_strlit("--scale");
    reveal_strlit("-");
    let (args, opts) = (state.args(), state.opts);
    let size = decimal(at_least_one(state.cols) as nat) + "x"@ + decimal(
        at_least_one(state.rows) as nat,
    );
    lemma_decimal_is_digits(at_least_one(state.cols) as nat);
    assert(size[0] == decimal(at_least_one(state.cols) as nat)[0]);
    let base = seq!["--polite"@, "on"@, "--probe"@, "off"@, "--view-size"@, size];
    let f = flag("--format"@, opts.format);
    let s = flag("--symbols"@, opts.symbols);
    let c = flag("--scale"@, opts.scale);
    assert(args == base + f + s + c + seq!["-"@]);
    if opts.format is Some {
        assert(args[6] == "--format"@);
    }
    if opts.symbols is Some {
        assert(args[6 + f.len() as int] == "--symbols"@);
    }
    if opts.scale is Some {
        assert(args[6 + f.len() as int + s.len()] == "--scale"@);
    }
    assert("--format"@[2] == 'f' && "--symbols"@[3] == 'y' && "--scale"@[3] == 'c');
    assert("--symbols"@[2] == 's' && "--scale"@[2] == 's');
    assert("--polite"@[2] == 'p' && "--probe"@[2] == 'p' && "--view-size"@[2] == 'v');
    assert forall|t: Seq<char>|
        t == "--format"@ || t == "--symbols"@ || t == "--scale"@ implies (#[trigger] args.contains(
        t,
    ) <==> f.contains(t) || s.contains(t) || c.contains(t)) by {
        lemma_contains_concat(base + f + s + c, seq!["-"@], t);
        lemma_contains_concat(base + f + s, c, t);
        lemma_contains_concat(base + f, s, t);
        lemma_contains_concat(base, f, t);
        assert(size != t);
        assert(!base.contains(t)) by {
            assert forall|i: int| 0 <= i < base.len() implies base[i] != t by {
                assert(base[i].len() < 7 || base[i][2] != t[2] || base[i] == size);
            }
        }
        assert(!seq!["-"@].contains(t)) by {
            assert(t.len() >= 7 && "-"@.len() == 1);
        }
    }
    lemma_flag_contains("--format"@, opts.format);
    lemma_flag_contains("--symbols"@, opts.symbols);
    lemma_flag_contains("--scale"@, opts.scale);
    assert(args.contains("--format"@) <==> f.contains("--format"@) || s.contains("--format"@)
        || c.contains("--format"@));
    assert(args.contains("--symbols"@) <==> f.contains("--symbols"@) || s.contains("--symbols"@)
        || c.contains("--symbols"@));
    assert(args.contains("--scale"@) <==> f.contains("--scale"@) || s.contains("--scale"@)
        || c.contains("--scale"@));
}

proof fn lemma_contains_concat(a: Seq<Seq<char>>, b: Seq<Seq<char>>, t: Seq<char>)
    ensures
        (a + b).contains(t) <==> a.contains(t) || b.contains(t),
{
    if a.contains(t) {
        let i = choose|i: int| 0 <= i < a.len() && a[i] == t;
        assert((a + b)[i] == t);
    }
    if b.contains(t) {
        let i = choose|i: int| 0 <= i < b.len() && b[i] == t;
        assert((a + b)[a.len() + i] == t);
    }
}

proof fn lemma_flag_contains(name: Seq<char>, value: Option<String>)
    ensures
        forall|t: Seq<char>| #[trigger]
            flag(name, value).contains(t) <==> (value is Some && t == name) || holds(value, t),
{
    if let Some(v) = value {
        assert(flag(name, value)[0] == name && flag(name, value)[1] == v@);
    }
}

/// What is shown begins by homing the cursor, whether or not there is any output
/// of chafa.
pub proof fn shown_output_homes_the_cursor(output: Option<Seq<u8>>)
    ensures
        homes_cursor(shown(output)),
{
}

/// No line feed is left without a carriage return before it.
pub proof fn no_bare_line_feed(text: Seq<u8>, i: int)
    requires
        0 <= i < crlf(text).len(),
        crlf(text)[i] == 0x0a,
    ensures
        i > 0,
        crlf(text)[i - 1] == 0x0d,
    decreases text.len(),
{
    let before = crlf(text.drop_last());
    if text.last() == 0x0a {
        if i < before.len() {
            no_bare_line_feed(text.drop_last(), i);
        }
    } else {
        no_bare_line_feed(text.drop_last(), i);
    }
}

/// `text` without the carriage return before each line feed.
pub open spec fn without_cr(text: Seq<u8>) -> Seq<u8>
    decreases text.len(),
{
    if text.len() == 0 {
        Seq::empty()
    } else if text.len() >= 2 && text.last() == 0x0a && text[text.len() - 2] == 0x0d {
        without_cr(text.drop_last().drop_last()).push(0x0a)
    } else {
        without_cr(text.drop_last()).push(text.last())
    }
}

/// Taking out the carriage returns again gives back what chafa printed.
pub proof fn line_breaks_can_be_undone(text: Seq<u8>)
    ensures
        without_cr(crlf(text)) == text,
    decreases text.len(),
{
    if text.len() > 0 {
        let before = text.drop_last();
        line_breaks_can_be_undone(before);
        if text.last() == 0x0a {
            assert(crlf(text).drop_last().drop_last() =~= crlf(before));
        } else {
            assert(crlf(text).drop_last() =~= crlf(before));
        }
        assert(without_cr(crlf(text)) =~= text);
    } else {
        assert(text =~= Seq::empty());
    }
}

/// Line breaks are widened byte by byte: a line feed becomes a carriage return and
/// a line feed, every other byte stays as it is, and nothing is added or moved.
pub proof fn each_byte_is_widened_alone(a: Seq<u8>, b: Seq<u8>, byte: u8)
    ensures
        crlf(seq![]).len() == 0,
        crlf(seq![byte]) == (if byte == 0x0a {
            seq![0x0du8, 0x0a]
        } else {
            seq![byte]
        }),
        crlf(a + b) == crlf(a) + crlf(b),
    decreases b.len(),
{
    assert(seq![byte].drop_last() =~= seq![]);
    assert(crlf(seq![byte].drop_last()) =~= seq![]);
    assert(crlf(seq![byte]) =~= (if byte == 0x0a {
        seq![0x0du8, 0x0a]
    } else {
        seq![byte]
    }));
    if b.len() == 0 {
        assert(a + b =~= a);
        assert(crlf(a) + crlf(b) =~= crlf(a));
    } else {
        each_byte_is_widened_alone(a, b.drop_last(), byte);
        assert((a + b).drop_last() =~= a + b.drop_last());
        assert(crlf(a + b) =~= crlf(a) + crlf(b));
    }
}

/// What is shown is `ESC [ H`, and behind it the widened output where there is any.
pub proof fn output_stands_behind_the_home(text: Seq<u8>)
    ensures
        shown(Some(text)) == seq![0x1bu8, 0x5b, 0x48] + crlf(text),
        shown(None) == seq![0x1bu8, 0x5b, 0x48],
{
    assert(CURSOR_HOME_BYTES@ =~= seq![0x1bu8, 0x5b, 0x48]);
}

/// The arguments come in one order: the fixed ones, the size in columns and rows
/// with no side under one, then format, symbols and scale as far as they are set,
/// and a dash.
pub proof fn arguments_are_in_order(state: ChafaState)
    ensures
        ({
            let (args, opts) = (state.args(), state.opts);
            let (cols, rows) = (
                if state.cols == 0 {
                    1
                } else {
                    state.cols as nat
                },
                if state.rows == 0 {
                    1
                } else {
                    state.rows as nat
                },
            );
            let f = if opts.format is Some {
                2int
            } else {
                0
            };
            let s = if opts.symbols is Some {
                2int
            } else {
                0
            };
            let c = if opts.scale is Some {
                2int
            } else {
                0
            };
            &&& args.len() == 7 + f + s + c
            &&& args[5] == decimal(cols) + seq!['x'] + decimal(rows)
            &&& opts.format matches Some(v) ==> args[6] == "--format"@ && args[7] == v@
            &&& opts.symbols matches Some(v) ==> args[6 + f] == "--symbols"@ && args[7 + f] == v@
            &&& opts.scale matches Some(v) ==> args[6 + f + s] == "--scale"@ && args[7 + f + s]
                == v@
            &&& args[6 + f + s + c] == "-"@
        }),
{
    reveal_strlit("x");
    assert("x"@ =~= seq!['x']);
}

/// The size is taken up as it is reported, with no side under one, and the options
/// stay.
pub proof fn sizes_are_taken_up(state: ChafaState, cols: u16, rows: u16)
    ensures
        state.resized(cols, rows).opts == state.opts,
        cols >= 1 ==> state.resized(cols, rows).cols == cols,
        rows >= 1 ==> state.resized(cols, rows).rows == rows,
        cols == 0 ==> state.resized(cols, rows).cols == 1,
        rows == 0 ==> state.resized(cols, rows).rows == 1,
{
}

/// A canvas has the size of the terminal with no side under one, the pixel mode
/// that the format names, symbols as they are selected, with `none` in front, and
/// is shrunk as the scale asks, unless that is `max` or not set.
pub proof fn canvases_follow_the_options(state: ChafaState, plan: CanvasPlan)
    requires
        state.plans(plan),
    ensures
        plan.cols >= 1 && plan.rows >= 1,
        state.cols >= 1 ==> plan.cols == state.cols,
        state.rows >= 1 ==> plan.rows == state.rows,
        state.cols == 0 ==> plan.cols == 1,
        state.rows == 0 ==> plan.rows == 1,
        plan.pixel_mode == PixelMode::Sixels <==> holds(state.opts.format, "sixels"@),
        plan.pixel_mode == PixelMode::Kitty <==> holds(state.opts.format, "kitty"@),
        plan.pixel_mode == PixelMode::Iterm2 <==> holds(state.opts.format, "iterm"@) || holds(
            state.opts.format,
            "iterm2"@,
        ),
        plan.shrink is Some <==> state.opts.scale is Some && !holds(state.opts.scale, "max"@),
        plan.shrink matches Some(n) ==> holds(state.opts.scale, n@),
        plan.symbols is All <==> state.opts.symbols is None,
        plan.symbols matches SymbolChoice::Selectors(s) ==> s@.len() >= 5 && s@.take(5) == seq![
            'n',
            'o',
            'n',
            'e',
            ',',
        ] && holds(state.opts.symbols, s@.skip(5)),
        plan.symbols is Nothing <==> (state.opts.symbols matches Some(v) && encode_utf8(
            v@,
        ).contains(0)),
{
    reveal_strlit("none,");
    reveal_strlit("sixels");
    reveal_strlit("kitty");
    reveal_strlit("iterm");
    reveal_strlit("iterm2");
    assert("sixels"@[0] == 's' && "kitty"@[0] == 'k' && "iterm"@[0] == 'i' && "iterm2"@[0] == 'i');
    let none = "none,"@;
    if let Some(v) = state.opts.symbols {
        assert((none + v@).take(5) =~= seq!['n', 'o', 'n', 'e', ',']);
        assert((none + v@).skip(5) =~= v@);
        lemma_encode_concat(none, v@);
        is_ascii_chars_encode_utf8(none);
        let (a, b) = (encode_utf8(none), encode_utf8(v@));
        assert forall|i: int| 0 <= i < a.len() implies a[i] != 0 by {
            assert(none[i] as u8 == a[i]);
        }
        if b.contains(0) {
            let i = choose|i: int| 0 <= i < b.len() && b[i] == 0;
            assert((a + b)[a.len() + i] == 0);
        }
        if (a + b).contains(0) {
            let i = choose|i: int| 0 <= i < (a + b).len() && (a + b)[i] == 0;
            assert(i >= a.len());
            assert(b[i - a.len()] == 0);
        }
    }
}

} // verus!
