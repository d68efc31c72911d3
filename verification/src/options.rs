//! Which renderer is to be used, and with which options.

use vstd::prelude::*;
use vstd::string::*;

use crate::halfblock::ColorDepth;
use crate::kitty::KittyOpts;
use crate::text::split;

verus! {

#[derive(Debug, Clone, Copy, PartialEq, Eq, Structural)]
pub enum RenderMode {
    /// Unicode upper-half-block with fg/bg colors. Two terminal rows per char.
    Halfblock,
    /// Luminance-mapped ASCII art. No color.
    Ascii,
    /// Sixel image (requires a Sixel-capable terminal).
    Sixel,
    /// Kitty graphics protocol image (kitty, Ghostty, WezTerm, ...).
    Kitty,
}

/// A renderer, by what it is made from.
#[derive(Debug, Clone, Copy, PartialEq, Eq, Structural)]
pub enum RendererConfig {
    Halfblock(ColorDepth),
    Ascii,
    /// Sixel at this integer pixel scale.
    Sixel(u32),
    Kitty(KittyOpts),
}

/// The renderer for `mode`. Halfblock defaults to 256-color for maximum
/// compatibility; callers wanting truecolor should build
/// [`crate::HalfblockRenderer`] directly. The others have their own defaults.
pub fn create(mode: RenderMode) -> (config: RendererConfig)
    ensures
        config == match mode {
            RenderMode::Halfblock => RendererConfig::Halfblock(ColorDepth::Ansi256),
            RenderMode::Ascii => RendererConfig::Ascii,
            RenderMode::Sixel => RendererConfig::Sixel(3),
            RenderMode::Kitty => RendererConfig::Kitty(KittyOpts { scale: 1, zlib: false }),
        },
{
    match mode {
        RenderMode::Halfblock => RendererConfig::Halfblock(ColorDepth::Ansi256),
        RenderMode::Ascii => RendererConfig::Ascii,
        RenderMode::Sixel => RendererConfig::Sixel(3),
        RenderMode::Kitty => RendererConfig::Kitty(KittyOpts::default()),
    }
}

/// What the player can choose to render with.
#[derive(Debug, Clone, Copy, PartialEq, Eq, Structural)]
pub enum Graphics {
    /// Sixel image protocol (iTerm2, xterm, foot, WezTerm, ...).
    Sixel,
    /// Kitty graphics protocol (kitty, Ghostty, WezTerm, ...).
    Kitty,
    /// Unicode upper-half-block characters with 24-bit color. Works anywhere.
    Halfblock,
}

impl Graphics {
    /// The renderer with this scale and these Kitty options, whose own scale is
    /// not used.
    pub fn renderer(self, scale: u32, kitty_opts: KittyOpts) -> (config: RendererConfig)
        ensures
            config == match self {
                Graphics::Sixel => RendererConfig::Sixel(scale),
                Graphics::Kitty => RendererConfig::Kitty(
                    KittyOpts { scale, zlib: kitty_opts.zlib },
                ),
                Graphics::Halfblock => RendererConfig::Halfblock(ColorDepth::Truecolor),
            },
            config is Sixel <==> self == Graphics::Sixel,
            config is Kitty <==> self == Graphics::Kitty,
            config is Halfblock <==> self == Graphics::Halfblock,
            config matches RendererConfig::Sixel(s) ==> s == scale,
            config matches RendererConfig::Kitty(opts) ==> opts.scale == scale && opts.zlib
                == kitty_opts.zlib,
            config matches RendererConfig::Halfblock(depth) ==> depth == ColorDepth::Truecolor,
    {
        match self {
            Graphics::Sixel => RendererConfig::Sixel(scale),
            Graphics::Kitty => RendererConfig::Kitty(KittyOpts { scale, ..kitty_opts }),
            // Halfblock has a fixed pixel-pair-per-cell mapping; scale is ignored.
            Graphics::Halfblock => RendererConfig::Halfblock(ColorDepth::Truecolor),
        }
    }

    /// Default fps cap when the user hasn't passed `--fps-max`.
    pub fn default_fps(self) -> (fps: u32)
        ensures
            fps == (if self == Graphics::Sixel {
                15
            } else {
                60u32
            }),
    {
        match self {
            // Sixel re-encodes a PNG per frame and can't sustain 60fps; capping keeps
            // the emulation running at a sane wall-clock speed rather than thrashing.
            Graphics::Sixel => 15,
            Graphics::Kitty | Graphics::Halfblock => 60,
        }
    }

    /// The fps cap: what the user passed, or else the default.
    pub fn fps(self, fps_max: Option<u32>) -> (fps: u32)
        ensures
            fps == match fps_max {
                Some(f) => f,
                None => if self == Graphics::Sixel {
                    15
                } else {
                    60
                },
            },
            fps_max matches Some(f) ==> fps == f,
    {
        match fps_max {
            Some(f) => f,
            None => self.default_fps(),
        }
    }
}

/// `c` has the Unicode property `White_Space`.
pub open spec fn is_white(c: char) -> bool {
    ||| '\u{9}' <= c <= '\u{d}'
    ||| c == ' '
    ||| c == '\u{85}'
    ||| c == '\u{a0}'
    ||| c == '\u{1680}'
    ||| '\u{2000}' <= c <= '\u{200a}'
    ||| c == '\u{2028}'
    ||| c == '\u{2029}'
    ||| c == '\u{202f}'
    ||| c == '\u{205f}'
    ||| c == '\u{3000}'
}

/// `s` from its first character on that is no white space.
pub open spec fn trim_start(s: Seq<char>) -> Seq<char>
    decreases s.len(),
{
    if s.len() > 0 && is_white(s[0]) {
        trim_start(s.drop_first())
    } else {
        s
    }
}

/// `s` up to its last character that is no white space.
pub open spec fn trim_end(s: Seq<char>) -> Seq<char>
    decreases s.len(),
{
    if s.len() > 0 && is_white(s.last()) {
        trim_end(s.drop_last())
    } else {
        s
    }
}

/// `s` without white space at either end.
pub open spec fn trim(s: Seq<char>) -> Seq<char> {
    trim_end(trim_start(s))
}

/// The first `=` of `token` stands at `i`.
pub open spec fn first_equals_at(token: Seq<char>, i: int) -> bool {
    &&& 0 <= i < token.len()
    &&& token[i] == '='
    &&& forall|j: int| 0 <= j < i ==> token[j] != '='
}

/// `token` is the pair `o=z`, with white space allowed round either part.
pub open spec fn asks_for_zlib(token: Seq<char>) -> bool {
    exists|i: int| #[trigger]
        first_equals_at(token, i) && trim(token.take(i)) == seq!['o'] && trim(token.skip(i + 1))
            == seq!['z']
}

/// What a list of entries means: whether one of them asks for compression, or
/// the first that is not understood, without the white space round it. Blank
/// entries mean nothing.
pub open spec fn meaning(list: Seq<Seq<char>>) -> Result<bool, Seq<char>>
    decreases list.len(),
{
    if list.len() == 0 {
        Ok(false)
    } else {
        match meaning(list.drop_last()) {
            Err(token) => Err(token),
            Ok(zlib) => {
                let token = trim(list.last());
                if token.len() == 0 {
                    Ok(zlib)
                } else if asks_for_zlib(token) {
                    Ok(true)
                } else {
                    Err(token)
                }
            },
        }
    }
}

/// Why options are refused.
#[derive(Debug, PartialEq, Eq)]
pub enum OptionsError {
    /// This entry of `--kitty-opts` is not understood.
    UnknownEntry(String),
    /// `--kitty-opts` was given for other graphics.
    KittyOnly,
}

fn is_white_space(c: char) -> (white: bool)
    ensures
        white == is_white(c),
{
    ('\u{9}' <= c && c <= '\u{d}') || c == ' ' || c == '\u{85}' || c == '\u{a0}' || c == '\u{1680}'
        || ('\u{2000}' <= c && c <= '\u{200a}') || c == '\u{2028}' || c == '\u{2029}' || c
        == '\u{202f}' || c == '\u{205f}' || c == '\u{3000}'
}

fn chars_of(s: &str) -> (chars: Vec<char>)
    ensures
        chars@ == s@,
{
    let mut chars: Vec<char> = Vec::new();
    for c in iter: s.chars()
        invariant
            chars@ == iter.seq().take(iter.index()),
            iter.seq() == s@,
    {
        chars.push(c);
    }
    chars
}

/// The bounds of `chars[from..to]` without white space at either end.
fn trimmed(chars: &Vec<char>, from: usize, to: usize) -> (bounds: (usize, usize))
    requires
        from <= to <= chars@.len(),
    ensures
        from <= bounds.0 <= bounds.1 <= to,
        trim(chars@.subrange(from as int, to as int)) == chars@.subrange(
            bounds.0 as int,
            bounds.1 as int,
        ),
{
    let ghost whole = trim(chars@.subrange(from as int, to as int));
    let mut start: usize = from;
    while start < to && is_white_space(chars[start])
        invariant
            from <= start <= to <= chars@.len(),
            trim_start(chars@.subrange(from as int, to as int)) == trim_start(
                chars@.subrange(start as int, to as int),
            ),
        decreases to - start,
    {
        assert(chars@.subrange(start as int, to as int).drop_first() =~= chars@.subrange(
            start + 1,
            to as int,
        ));
        start += 1;
    }
    let mut end: usize = to;
    while end > start && is_white_space(chars[end - 1])
        invariant
            from <= start <= end <= to <= chars@.len(),
            whole == trim_end(chars@.subrange(start as int, end as int)),
        decreases end,
    {
        assert(chars@.subrange(start as int, end as int).drop_last() =~= chars@.subrange(
            start as int,
            end - 1,
        ));
        end -= 1;
    }
    (start, end)
}

/// The characters in `bounds` are `c` alone.
fn is_char(chars: &Vec<char>, bounds: (usize, usize), c: char) -> (is: bool)
    requires
        bounds.0 <= bounds.1 <= chars@.len(),
    ensures
        is == (chars@.subrange(bounds.0 as int, bounds.1 as int) == seq![c]),
{
    let ghost part = chars@.subrange(bounds.0 as int, bounds.1 as int);
    assert(seq![c].len() == 1 && seq![c][0] == c);
    if bounds.1 - bounds.0 != 1 {
        assert(part.len() != 1);
        return false;
    }
    assert(part[0] == chars@[bounds.0 as int]);
    assert(part[0] == c ==> part =~= seq![c]);
    chars[bounds.0] == c
}

fn is_zlib_entry(chars: &Vec<char>, from: usize, to: usize) -> (asks: bool)
    requires
        from <= to <= chars@.len(),
    ensures
        asks == asks_for_zlib(chars@.subrange(from as int, to as int)),
{
    let ghost token = chars@.subrange(from as int, to as int);
    for i in from..to
        invariant
            from <= to <= chars@.len(),
            token == chars@.subrange(from as int, to as int),
            forall|j: int| 0 <= j < i - from ==> token[j] != '=',
    {
        if chars[i] == '=' {
            let k = trimmed(chars, from, i);
            let v = trimmed(chars, i + 1, to);
            proof {
                let at = i - from;
                assert(first_equals_at(token, at));
                assert(token.take(at) =~= chars@.subrange(from as int, i as int));
                assert(token.skip(at + 1) =~= chars@.subrange(i + 1, to as int));
                assert forall|j: int| first_equals_at(token, j) implies j == at by {}
            }
            return is_char(chars, k, 'o') && is_char(chars, v, 'z');
        }
    }
    false
}

/// There is a last entry, and it is what stands behind the last comma.
proof fn lemma_entries(s: Seq<char>, start: int)
    requires
        0 <= start <= s.len(),
        forall|i: int| start <= i < s.len() ==> s[i] != ',',
        start > 0 ==> s[start - 1] == ',',
    ensures
        split(s, ',').len() > 0,
        split(s, ',').last() == s.skip(start),
        split(s, ',').drop_last() == (if start == 0 {
            seq![]
        } else {
            split(s.take(start - 1), ',')
        }),
    decreases s.len(),
{
    if s.len() == 0 {
        assert(s.skip(start) =~= seq![]);
        assert(split(s, ',').drop_last() =~= seq![]);
    } else if start == s.len() {
        assert(s.drop_last() =~= s.take(start - 1));
        assert(s.skip(start) =~= seq![]);
        assert(split(s, ',').drop_last() =~= split(s.drop_last(), ','));
    } else {
        lemma_entries(s.drop_last(), start);
        assert(s.drop_last().skip(start).push(s.last()) =~= s.skip(start));
        if start > 0 {
            assert(s.drop_last().take(start - 1) =~= s.take(start - 1));
        }
        let before = split(s.drop_last(), ',');
        assert(split(s, ',').drop_last() =~= before.drop_last());
    }
}

/// Once an entry is not understood, the list is not.
proof fn lemma_meaning_err(list: Seq<Seq<char>>, n: int)
    requires
        0 <= n <= list.len(),
        meaning(list.take(n)) is Err,
    ensures
        meaning(list) == meaning(list.take(n)),
    decreases list.len(),
{
    if n == list.len() {
        assert(list.take(n) =~= list);
    } else {
        assert(list.drop_last().take(n) =~= list.take(n));
        lemma_meaning_err(list.drop_last(), n);
    }
}

/// The entries before a comma are the first entries of the whole.
proof fn lemma_entries_before_comma(s: Seq<char>, i: int)
    requires
        0 <= i < s.len(),
        s[i] == ',',
    ensures
        split(s.take(i), ',').len() < split(s, ',').len(),
        split(s, ',').take(split(s.take(i), ',').len() as int) == split(s.take(i), ','),
    decreases s.len(),
{
    let n = split(s.take(i), ',').len() as int;
    let before = split(s.drop_last(), ',');
    if i == s.len() - 1 {
        assert(s.take(i) =~= s.drop_last());
        assert(split(s, ',').take(n) =~= before);
    } else {
        lemma_entries_before_comma(s.drop_last(), i);
        assert(s.drop_last().take(i) =~= s.take(i));
        assert(split(s, ',').take(n) =~= before.take(n));
    }
}

/// Parse the comma-separated `--kitty-opts` string into a [`KittyOpts`]. The
/// syntax (`k=v` pairs) deliberately echoes a few keys of the kitty graphics
/// wire protocol for familiarity, but this is *not* a passthrough: only the
/// keys listed here are understood, and they may be interpreted differently.
///
/// Supported:
///   o=z  -- zlib-compress the pixel payload (kitty's `o=z` semantics)
pub fn parse_kitty_opts(s: &str) -> (opts: Result<KittyOpts, OptionsError>)
    ensures
        match meaning(split(s@, ',')) {
            Ok(zlib) => opts == Ok::<KittyOpts, OptionsError>(KittyOpts { scale: 1, zlib }),
            Err(token) => opts matches Err(OptionsError::UnknownEntry(t)) && t@ == token,
        },
{
    let chars = chars_of(s);
    let mut opts = KittyOpts::default();
    let mut start: usize = 0;
    let mut i: usize = 0;
    loop
        invariant_except_break
            meaning(
                if start == 0 {
                    seq![]
                } else {
                    split(s@.take(start - 1), ',')
                },
            ) == Ok::<bool, Seq<char>>(opts.zlib),
        invariant
            chars@ == s@,
            start <= i <= chars.len(),
            forall|j: int| start <= j < i ==> s@[j] != ',',
            start > 0 ==> s@[start - 1] == ',',
            opts.scale == 1,
        ensures
            opts.scale == 1,
            meaning(split(s@, ',')) == Ok::<bool, Seq<char>>(opts.zlib),
        decreases chars.len() - i,
    {
        if i == chars.len() || chars[i] == ',' {
            let (from, to) = trimmed(&chars, start, i);
            proof {
                let done = s@.take(i as int);
                lemma_entries(done, start as int);
                assert(done.skip(start as int) =~= s@.subrange(start as int, i as int));
                if start > 0 {
                    assert(done.take(start - 1) =~= s@.take(start - 1));
                }
                if i < chars@.len() {
                    lemma_entries_before_comma(s@, i as int);
                } else {
                    assert(done =~= s@);
                }
            }
            if from < to {
                if is_zlib_entry(&chars, from, to) {
                    opts.zlib = true;
                } else {
                    proof {
                        let list = split(s@.take(i as int), ',');
                        assert(meaning(list) == Err::<bool, Seq<char>>(
                            s@.subrange(from as int, to as int),
                        ));
                        assert(split(s@, ',').take(list.len() as int) =~= list);
                        lemma_meaning_err(split(s@, ','), list.len() as int);
                    }
                    return Err(OptionsError::UnknownEntry(s.substring_char(from, to).to_owned()));
                }
            }
            if i == chars.len() {
                break;
            }
            start = i + 1;
            assert(s@.take(start - 1) =~= s@.take(i as int));
        }
        i += 1;
    }
    Ok(opts)
}

/// The Kitty options for `graphics`. They can be given with Kitty graphics only.
pub fn kitty_opts_for(graphics: Graphics, s: &str) -> (opts: Result<KittyOpts, OptionsError>)
    ensures
        match meaning(split(s@, ',')) {
            Ok(zlib) => if s@.len() > 0 && graphics != Graphics::Kitty {
                opts == Err::<KittyOpts, OptionsError>(OptionsError::KittyOnly)
            } else {
                opts == Ok::<KittyOpts, OptionsError>(KittyOpts { scale: 1, zlib })
            },
            Err(token) => opts matches Err(OptionsError::UnknownEntry(t)) && t@ == token,
        },
        opts is Ok ==> s@.len() == 0 || graphics == Graphics::Kitty,
        s@.len() == 0 || graphics == Graphics::Kitty ==> (opts is Ok <==> meaning(
            split(s@, ','),
        ) is Ok),
        opts == Err::<KittyOpts, OptionsError>(OptionsError::KittyOnly) ==> meaning(
            split(s@, ','),
        ) is Ok,
{
    let opts = parse_kitty_opts(s);
    match opts {
        Ok(o) => if !s.is_empty() && !(graphics == Graphics::Kitty) {
            Err(OptionsError::KittyOnly)
        } else {
            Ok(o)
        },
        Err(e) => Err(e),
    }
}

/// `entry` is blank, or the pair `o=z`.
pub open spec fn is_understood(entry: Seq<char>) -> bool {
    trim(entry).len() == 0 || asks_for_zlib(trim(entry))
}

/// A list is accepted exactly where each of its entries is understood, and then
/// asks for compression exactly where one of them is not blank. Otherwise the
/// first that is not understood is named.
pub proof fn lists_are_judged_by_their_entries(list: Seq<Seq<char>>)
    ensures
        meaning(list) is Ok <==> (forall|i: int|
            0 <= i < list.len() ==> is_understood(#[trigger] list[i])),
        meaning(list) matches Ok(zlib) ==> zlib == (exists|i: int|
            0 <= i < list.len() && trim(#[trigger] list[i]).len() > 0),
        meaning(list) matches Err(token) ==> exists|i: int|
            0 <= i < list.len() && token == trim(#[trigger] list[i]) && !is_understood(list[i]) && (
            forall|j: int| 0 <= j < i ==> is_understood(#[trigger] list[j])),
    decreases list.len(),
{
    if list.len() > 0 {
        let before = list.drop_last();
        lists_are_judged_by_their_entries(before);
        assert forall|i: int| 0 <= i < before.len() implies before[i] == list[i] by {}
        match meaning(before) {
            Ok(zlib) => {
                assert forall|i: int| 0 <= i < before.len() implies is_understood(
                    #[trigger] list[i],
                ) by {
                    assert(is_understood(before[i]));
                }
                if zlib {
                    let i = choose|i: int|
                        0 <= i < before.len() && trim(#[trigger] before[i]).len() > 0;
                    assert(trim(list[i]).len() > 0);
                } else {
                    assert forall|i: int| 0 <= i < before.len() implies trim(
                        #[trigger] list[i],
                    ).len() == 0 by {
                        assert(trim(before[i]).len() == 0);
                    }
                }
                let token = trim(list.last());
                assert(list.last() == list[list.len() - 1]);
            },
            Err(token) => {
                let i = choose|i: int|
                    0 <= i < before.len() && token == trim(#[trigger] before[i]) && !is_understood(
                        before[i],
                    ) && (forall|j: int| 0 <= j < i ==> is_understood(#[trigger] before[j]));
                assert(!is_understood(list[i]));
                assert forall|j: int| 0 <= j < i implies is_understood(#[trigger] list[j]) by {
                    assert(is_understood(before[j]));
                }
            },
        }
    }
}

/// The parts of `list`, with a comma between each two.
pub open spec fn with_commas(list: Seq<Seq<char>>) -> Seq<char>
    decreases list.len(),
{
    if list.len() == 0 {
        seq![]
    } else if list.len() == 1 {
        list[0]
    } else {
        with_commas(list.drop_last()).push(',') + list.last()
    }
}

/// The entries are what stands between the commas: they hold none, and with
/// commas between them they are the text again.
pub proof fn entries_stand_between_commas(s: Seq<char>)
    ensures
        split(s, ',').len() > 0,
        with_commas(split(s, ',')) == s,
        forall|i: int| 0 <= i < split(s, ',').len() ==> !(#[trigger] split(s, ',')[i]).contains(','),
    decreases s.len(),
{
    if s.len() > 0 {
        let before = split(s.drop_last(), ',');
        entries_stand_between_commas(s.drop_last());
        if s.last() == ',' {
            assert(split(s, ',').drop_last() =~= before);
            assert(with_commas(split(s, ',')) =~= s);
        } else {
            assert(split(s, ',').drop_last() =~= before.drop_last());
            assert(with_commas(split(s, ',')) =~= with_commas(before).push(s.last()));
            assert(with_commas(split(s, ',')) =~= s);
            assert forall|i: int| 0 <= i < split(s, ',').len() implies !(
            #[trigger] split(s, ',')[i]).contains(',') by {
                assert(!before[i].contains(','));
                if i == split(s, ',').len() - 1 {
                    let e = before[i].push(s.last());
                    assert forall|j: int| 0 <= j < e.len() implies e[j] != ',' by {
                        if j < before[i].len() {
                            assert(before[i][j] == e[j]);
                        }
                    }
                }
            }
        }
    } else {
        assert(with_commas(split(s, ',')) =~= s);
    }
}

/// `s` is white space throughout.
pub open spec fn is_blank(s: Seq<char>) -> bool {
    forall|i: int| 0 <= i < s.len() ==> is_white(#[trigger] s[i])
}

proof fn lemma_trim_start(white: Seq<char>, rest: Seq<char>)
    requires
        is_blank(white),
        rest.len() == 0 || !is_white(rest[0]),
    ensures
        trim_start(white + rest) == rest,
    decreases white.len(),
{
    if white.len() == 0 {
        assert(white + rest =~= rest);
    } else {
        let tail = white.drop_first();
        assert forall|i: int| 0 <= i < tail.len() implies is_white(#[trigger] tail[i]) by {
            assert(tail[i] == white[i + 1]);
        }
        lemma_trim_start(tail, rest);
        assert((white + rest).drop_first() =~= tail + rest);
        assert((white + rest)[0] == white[0]);
    }
}

proof fn lemma_trim_end(rest: Seq<char>, white: Seq<char>)
    requires
        is_blank(white),
        rest.len() == 0 || !is_white(rest.last()),
    ensures
        trim_end(rest + white) == rest,
    decreases white.len(),
{
    if white.len() == 0 {
        assert(rest + white =~= rest);
    } else {
        let head = white.drop_last();
        assert forall|i: int| 0 <= i < head.len() implies is_white(#[trigger] head[i]) by {
            assert(head[i] == white[i]);
        }
        lemma_trim_end(rest, head);
        assert((rest + white).drop_last() =~= rest + head);
        assert((rest + white).last() == white[white.len() - 1]);
    }
}

/// White space round a text that neither begins nor ends with any is taken off, and
/// nothing else is.
pub proof fn white_space_round_text_is_taken_off(
    before: Seq<char>,
    text: Seq<char>,
    after: Seq<char>,
)
    requires
        is_blank(before),
        is_blank(after),
        text.len() > 0 ==> !is_white(text[0]) && !is_white(text.last()),
    ensures
        trim(before + text + after) == text,
{
    if text.len() > 0 {
        assert(before + text + after =~= before + (text + after));
        assert((text + after)[0] == text[0]);
        lemma_trim_start(before, text + after);
        lemma_trim_end(text, after);
    } else {
        let white = before + after;
        assert(before + text + after =~= white + text);
        assert(is_blank(white));
        lemma_trim_start(white, text);
        assert(trim_end(text) == text);
    }
}

/// Every text is some white space, what is left when that is taken off, and some
/// more white space; what is left neither begins nor ends with any.
pub proof fn trimming_takes_off_white_space(s: Seq<char>) -> (parts: (Seq<char>, Seq<char>))
    ensures
        is_blank(parts.0),
        is_blank(parts.1),
        s == parts.0 + trim(s) + parts.1,
        trim(s).len() > 0 ==> !is_white(trim(s)[0]) && !is_white(trim(s).last()),
{
    let a = lemma_trim_start_prefix(s);
    let middle = trim_start(s);
    let b = lemma_trim_end_suffix(middle);
    assert(s =~= a + trim(s) + b);
    if trim(s).len() > 0 {
        assert(middle[0] == trim(s)[0]);
    }
    (a, b)
}

proof fn lemma_trim_start_prefix(s: Seq<char>) -> (white: Seq<char>)
    ensures
        is_blank(white),
        s == white + trim_start(s),
        trim_start(s).len() > 0 ==> !is_white(trim_start(s)[0]),
    decreases s.len(),
{
    if s.len() > 0 && is_white(s[0]) {
        let white = lemma_trim_start_prefix(s.drop_first());
        let all = seq![s[0]] + white;
        let rest = s.drop_first();
        assert(s =~= seq![s[0]] + rest);
        assert(rest == white + trim_start(rest));
        assert(seq![s[0]] + (white + trim_start(rest)) =~= all + trim_start(rest));
        all
    } else {
        assert(s =~= seq![] + s);
        seq![]
    }
}

proof fn lemma_trim_end_suffix(s: Seq<char>) -> (white: Seq<char>)
    ensures
        is_blank(white),
        s == trim_end(s) + white,
        trim_end(s).len() > 0 ==> !is_white(trim_end(s).last()),
    decreases s.len(),
{
    if s.len() > 0 && is_white(s.last()) {
        let white = lemma_trim_end_suffix(s.drop_last());
        let all = white.push(s.last());
        let rest = s.drop_last();
        assert(s =~= rest.push(s.last()));
        assert(rest == trim_end(rest) + white);
        assert((trim_end(rest) + white).push(s.last()) =~= trim_end(rest) + all);
        all
    } else {
        assert(s =~= s + seq![]);
        seq![]
    }
}

/// `entry` is an `o`, an equals sign and a `z`, with the white space in `w` before,
/// between and behind them.
pub open spec fn is_o_z(entry: Seq<char>, w: (Seq<char>, Seq<char>, Seq<char>, Seq<char>)) -> bool {
    &&& is_blank(w.0)
    &&& is_blank(w.1)
    &&& is_blank(w.2)
    &&& is_blank(w.3)
    &&& entry == w.0 + seq!['o'] + w.1 + seq!['='] + w.2 + seq!['z'] + w.3
}

proof fn lemma_o_z_is_understood(
    entry: Seq<char>,
    w: (Seq<char>, Seq<char>, Seq<char>, Seq<char>),
)
    requires
        is_o_z(entry, w),
    ensures
        asks_for_zlib(trim(entry)),
{
    let (left, right) = (seq!['o'] + w.1, w.2 + seq!['z']);
    let middle = left + seq!['='] + right;
    assert(entry =~= w.0 + middle + w.3);
    white_space_round_text_is_taken_off(w.0, middle, w.3);
    assert(middle.take(left.len() as int) =~= left);
    assert(middle.skip(left.len() as int + 1) =~= right);
    assert forall|j: int| 0 <= j < left.len() implies middle[j] != '=' by {
        if j > 0 {
            assert(middle[j] == w.1[j - 1]);
        }
    }
    assert(first_equals_at(middle, left.len() as int));
    white_space_round_text_is_taken_off(seq![], seq!['o'], w.1);
    assert(seq![] + seq!['o'] + w.1 =~= left);
    white_space_round_text_is_taken_off(w.2, seq!['z'], seq![]);
    assert(w.2 + seq!['z'] + seq![] =~= right);
}

proof fn lemma_blank_concat(a: Seq<char>, b: Seq<char>)
    requires
        is_blank(a),
        is_blank(b),
    ensures
        is_blank(a + b),
{
}

proof fn lemma_zlib_is_o_z(entry: Seq<char>) -> (w: (Seq<char>, Seq<char>, Seq<char>, Seq<char>))
    requires
        asks_for_zlib(trim(entry)),
    ensures
        is_o_z(entry, w),
{
    let token = trim(entry);
    let (before, after) = trimming_takes_off_white_space(entry);
    let i = choose|i: int| #[trigger]
        first_equals_at(token, i) && trim(token.take(i)) == seq!['o'] && trim(token.skip(i + 1))
            == seq!['z'];
    let (left, right) = (token.take(i), token.skip(i + 1));
    let (a, b) = trimming_takes_off_white_space(left);
    let (c, d) = trimming_takes_off_white_space(right);
    lemma_blank_concat(before, a);
    lemma_blank_concat(d, after);
    let w = (before + a, b, c, d + after);
    let token_parts = a + seq!['o'] + b + seq!['='] + (c + seq!['z'] + d);
    assert(token =~= left + seq!['='] + right);
    assert(token == token_parts);
    assert(before + token_parts + after =~= w.0 + seq!['o'] + w.1 + seq!['='] + w.2 + seq!['z']
        + w.3);
    w
}

/// An entry is understood exactly where it is white space throughout, or an `o`, an
/// equals sign and a `z` with nothing but white space round them. Only the latter
/// is not blank.
pub proof fn only_o_z_is_understood(entry: Seq<char>)
    ensures
        trim(entry).len() == 0 <==> is_blank(entry),
        is_understood(entry) <==> is_blank(entry) || exists|
            w: (Seq<char>, Seq<char>, Seq<char>, Seq<char>),
        | #[trigger]
            is_o_z(entry, w),
{
    let token = trim(entry);
    let (before, after) = trimming_takes_off_white_space(entry);
    if token.len() == 0 {
        lemma_blank_concat(before, after);
        assert(before + token + after =~= before + after);
    } else if is_blank(entry) {
        assert(entry[before.len() as int] == token[0]);
    }
    if exists|w: (Seq<char>, Seq<char>, Seq<char>, Seq<char>)| #[trigger] is_o_z(entry, w) {
        let w = choose|w: (Seq<char>, Seq<char>, Seq<char>, Seq<char>)| #[trigger]
            is_o_z(entry, w);
        lemma_o_z_is_understood(entry, w);
    }
    if asks_for_zlib(token) {
        let w = lemma_zlib_is_o_z(entry);
        assert(is_o_z(entry, w));
    }
}

} // verus!
