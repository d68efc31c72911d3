//! The Kitty graphics protocol.

use vstd::prelude::*;
use vstd::slice::slice_subrange;
use vstd::slice::slice_to_vec;
use vstd::string::*;
use vstd::utf8::*;

use crate::ansi::CURSOR_HOME_BYTES;
use crate::bytes::push_bytes;
use crate::codec::base64_encode;
use crate::codec::base64_len;
use crate::codec::base64_text;
use crate::codec::byte_or_zero;
use crate::codec::deflate;
use crate::codec::triple;
use crate::codec::zlib_inflated;
use crate::frame::RenderFrame;
use crate::frame::FRAME_BYTES;
use crate::frame::NTSC_HEIGHT;
use crate::frame::NTSC_WIDTH;
use crate::kitty_terminal::lemma_base64_is_plain;
use crate::kitty_terminal::lemma_sent_data;
use crate::kitty_terminal::sent_image;
use crate::renderer::Renderer;
use crate::text::decimal;
use crate::text::lemma_plain_bytes;
use crate::text::push_decimal;
use crate::upscale::nearest_neighbor_upscale_rgb;
use crate::upscale::upscale_rgb;
use crate::upscale::upscaling_by_one_is_identity;
use crate::upscale::upscaling_grows_quadratically;

verus! {

/// Kitty requires the base64 payload be split into chunks of at most 4096 bytes.
pub const CHUNK: usize = 4096;

/// The number of bytes whose base64 text fills a chunk.
pub const CHUNK_BYTES: usize = 3072;

/// Tunable knobs for [`KittyRenderer`].
#[derive(Debug, Clone, Copy, PartialEq, Eq, Structural)]
pub struct KittyOpts {
    /// Integer pixel scale (nearest-neighbor upscaled before transmit).
    pub scale: u32,
    /// Deflate the pixel buffer before base64. NES frames are mostly flat colors
    /// and compress very well, which cuts per-frame bytes, especially helpful
    /// at high `scale` where the payload would otherwise overwhelm the terminal.
    pub zlib: bool,
}

impl Default for KittyOpts {
    fn default() -> (opts: Self)
        ensures
            opts == (KittyOpts { scale: 1, zlib: false }),
    {
        KittyOpts { scale: 1, zlib: false }
    }
}

/// What a [`KittyRenderer`] remembers: its options, the image id that the next
/// frame gets, and the one that the frame on screen has.
pub struct KittyState {
    pub opts: KittyOpts,
    pub next_id: u32,
    pub prev_id: Option<u32>,
}

impl KittyState {
    /// The scale is at least one. The ids are 1 and 2, and the frame on screen
    /// does not have the id that the next one gets.
    pub open spec fn valid(self) -> bool {
        &&& self.opts.scale >= 1
        &&& self.next_id == 1 || self.next_id == 2
        &&& self.prev_id matches Some(p) ==> p == 3 - self.next_id
    }

    /// The state before the first frame. A scale of zero is taken as one.
    pub open spec fn initial(opts: KittyOpts) -> KittyState {
        KittyState {
            opts: KittyOpts {
                scale: if opts.scale == 0 {
                    1
                } else {
                    opts.scale
                },
                zlib: opts.zlib,
            },
            next_id: 1,
            prev_id: None,
        }
    }

    /// The state once another frame is on screen.
    pub open spec fn after_frame(self) -> KittyState {
        KittyState {
            opts: self.opts,
            next_id: if self.next_id == 1 {
                2
            } else {
                1
            },
            prev_id: Some(self.next_id),
        }
    }

    /// The state once `n` more frames have been on screen.
    pub open spec fn after_frames(self, n: nat) -> KittyState
        decreases n,
    {
        if n == 0 {
            self
        } else {
            self.after_frames((n - 1) as nat).after_frame()
        }
    }

    /// The size of a frame with these options, in bytes of RGB888.
    pub open spec fn scaled_len(self) -> nat {
        NTSC_WIDTH as nat * self.opts.scale as nat * (NTSC_HEIGHT as nat * self.opts.scale as nat)
            * 3
    }

    /// A frame with these options fits in memory, and so does its base64 text
    /// where it is not compressed.
    pub open spec fn fits(self) -> bool {
        &&& self.scaled_len() <= isize::MAX
        &&& !self.opts.zlib ==> base64_len(self.scaled_len()) <= isize::MAX
    }

    /// The pixels in the size in which they are shown.
    pub open spec fn scaled(self, pixels: Seq<u8>) -> Seq<u8> {
        upscale_rgb(pixels, NTSC_WIDTH as nat, NTSC_HEIGHT as nat, self.opts.scale as nat)
    }

    /// `payload` is fit to be transmitted for a frame with these pixels, before
    /// base64: it is the scaled pixels or, where the options ask for compression,
    /// a zlib stream of them.
    pub open spec fn is_payload(self, pixels: Seq<u8>, payload: Seq<u8>) -> bool {
        &&& payload.len() > 0
        &&& self.scaled(pixels) == if self.opts.zlib {
            zlib_inflated(payload)
        } else {
            payload
        }
    }

    /// `out` transmits an image of the scaled pixels.
    pub open spec fn transmits(self, pixels: Seq<u8>, out: Seq<u8>) -> bool {
        exists|payload: Seq<u8>|
            {
                let encoded = encode_utf8(base64_text(payload));
                &&& #[trigger] self.is_payload(pixels, payload)
                &&& sent_image(self, encoded).pixels() == self.scaled(pixels)
                &&& out == self.transmission(encoded)
            }
    }

    /// The control keys of the first chunk:
    /// `a=T,f=24,s=<width>,v=<height>,i=<id>,q=2[,o=z],m=<more>`
    pub open spec fn first_keys(self, more: bool) -> Seq<char> {
        "a=T,f=24,s="@ + decimal((NTSC_WIDTH * self.opts.scale) as nat) + ",v="@ + decimal(
            (NTSC_HEIGHT * self.opts.scale) as nat,
        ) + ",i="@ + decimal(self.next_id as nat) + ",q=2"@ + (if self.opts.zlib {
            ",o=z"@
        } else {
            ""@
        }) + ",m="@ + more_flag(more)
    }

    /// The control keys of chunk `k`. Most are only sent on the first chunk.
    pub open spec fn keys(self, k: int, more: bool) -> Seq<char> {
        if k == 0 {
            self.first_keys(more)
        } else {
            next_keys(more)
        }
    }

    /// Chunk `k` of `encoded` in its escape sequence.
    pub open spec fn packet(self, encoded: Seq<u8>, k: int) -> Seq<u8> {
        command(self.keys(k, k + 1 < chunk_count(encoded.len())), chunk(encoded, k))
    }

    /// The first `n` packets.
    pub open spec fn packets(self, encoded: Seq<u8>, n: nat) -> Seq<u8>
        decreases n,
    {
        if n == 0 {
            Seq::empty()
        } else {
            self.packets(encoded, (n - 1) as nat) + self.packet(encoded, n - 1)
        }
    }

    /// The deletion of the frame on screen, if there is one.
    pub open spec fn deletion(self) -> Seq<u8> {
        match self.prev_id {
            Some(p) => command(delete_keys(p), Seq::empty()),
            None => Seq::empty(),
        }
    }

    /// Everything that puts an image with the base64 payload `encoded` in place
    /// of the one on screen: the new image first, then the deletion of the old.
    pub open spec fn transmission(self, encoded: Seq<u8>) -> Seq<u8> {
        CURSOR_HOME_BYTES@ + self.packets(encoded, chunk_count(encoded.len())) + self.deletion()
    }
}

/// `1` where chunks follow, `0` on the last.
pub open spec fn more_flag(more: bool) -> Seq<char> {
    if more {
        "1"@
    } else {
        "0"@
    }
}

/// The control keys of a chunk behind the first: `m=<more>`
pub open spec fn next_keys(more: bool) -> Seq<char> {
    "m="@ + more_flag(more)
}

/// The control keys that delete an image: `a=d,d=I,i=<id>,q=2`
pub open spec fn delete_keys(id: u32) -> Seq<char> {
    "a=d,d=I,i="@ + decimal(id as nat) + ",q=2"@
}

/// A graphics command: `\x1b_G<keys>;<payload>\x1b\`
pub open spec fn command(keys: Seq<char>, payload: Seq<u8>) -> Seq<u8> {
    encode_utf8("\x1b_G"@) + encode_utf8(keys) + encode_utf8(";"@) + payload + encode_utf8(
        "\x1b\\"@,
    )
}

/// The number of chunks that `len` bytes are split into.
pub open spec fn chunk_count(len: nat) -> nat {
    (len + 4095) / 4096
}

/// Chunk `k` of `encoded`: 4096 bytes, or what is left.
pub open spec fn chunk(encoded: Seq<u8>, k: int) -> Seq<u8> {
    encoded.subrange(
        k * 4096,
        if (k + 1) * 4096 < encoded.len() {
            (k + 1) * 4096
        } else {
            encoded.len() as int
        },
    )
}

/// A chunk of base64 text is the text of the bytes that it stands for: encoding
/// piece by piece is encoding the whole.
proof fn lemma_chunk_of_base64(payload: Seq<u8>, k: int)
    requires
        0 <= k * 3072 < payload.len(),
    ensures
        ({
            let end = if payload.len() - k * 3072 > 3072 {
                k * 3072 + 3072
            } else {
                payload.len() as int
            };
            encode_utf8(base64_text(payload.subrange(k * 3072, end))) == chunk(
                encode_utf8(base64_text(payload)),
                k,
            )
        }),
{
    let end = if payload.len() - k * 3072 > 3072 {
        k * 3072 + 3072
    } else {
        payload.len() as int
    };
    let piece = payload.subrange(k * 3072, end);
    let (whole, part) = (base64_text(payload), base64_text(piece));
    lemma_base64_is_plain(payload);
    lemma_base64_is_plain(piece);
    lemma_plain_bytes(whole);
    lemma_plain_bytes(part);
    is_ascii_chars_encode_utf8(whole);
    is_ascii_chars_encode_utf8(part);
    let expected = chunk(encode_utf8(whole), k);
    assert(expected.len() == part.len());
    assert forall|j: int| 0 <= j < part.len() implies encode_utf8(part)[j] == expected[j] by {
        let i = k * 4096 + j;
        let first = j / 4 * 3;
        assert(i / 4 * 3 == k * 3072 + first && i % 4 == j % 4);
        assert forall|n: int| first <= n < first + 3 implies #[trigger] byte_or_zero(piece, n)
            == byte_or_zero(payload, k * 3072 + n) by {}
        assert(triple(piece, first) == triple(payload, k * 3072 + first));
        assert(part[j] == whole[i]);
        assert(part[j] as u8 == encode_utf8(part)[j]);
        assert(whole[i] as u8 == encode_utf8(whole)[i]);
    }
    assert(encode_utf8(part) =~= expected);
}

fn more_str(more: bool) -> (flag: &'static str)
    ensures
        flag@ == more_flag(more),
{
    if more {
        "1"
    } else {
        "0"
    }
}

fn next_keys_text(more: bool) -> (keys: String)
    ensures
        keys@ == next_keys(more),
{
    let mut keys = "m=".to_owned();
    keys.append(more_str(more));
    keys
}

fn delete_keys_text(id: u32) -> (keys: String)
    ensures
        keys@ == delete_keys(id),
{
    let mut keys = "a=d,d=I,i=".to_owned();
    push_decimal(&mut keys, id as u64);
    keys.append(",q=2");
    keys
}

fn push_command(out: &mut Vec<u8>, keys: &str, payload: &[u8])
    ensures
        final(out)@ == old(out)@ + command(keys@, payload@),
{
    push_bytes(out, "\x1b_G".as_bytes());
    push_bytes(out, keys.as_bytes());
    push_bytes(out, ";".as_bytes());
    push_bytes(out, payload);
    push_bytes(out, "\x1b\\".as_bytes());
    assert(out@ =~= old(out)@ + command(keys@, payload@));
}

/// Renders frames using the Kitty graphics protocol.
///
/// Each frame is transmitted as a 24-bit RGB image with `a=T` (transmit +
/// display), and `q=2` suppresses the terminal's acknowledgement so we don't
/// have to drain it from stdin.
///
/// Image ids alternate every frame. Each render transmits the new image under
/// one id, then deletes the previous frame's image (with its placement) under
/// the *other* id, so there is never a moment with no placement on screen.
/// Re-using a single id, by contrast, gives the terminal a window where the old
/// image is being replaced and nothing is displayed, which manifests as visible
/// flashing once frames are large enough that the multi-chunk transmit straddles
/// a redraw.
pub struct KittyRenderer {
    opts: KittyOpts,
    next_id: u32,
    prev_id: Option<u32>,
}

impl View for KittyRenderer {
    type V = KittyState;

    closed spec fn view(&self) -> KittyState {
        KittyState { opts: self.opts, next_id: self.next_id, prev_id: self.prev_id }
    }
}

impl KittyRenderer {
    #[verifier::type_invariant]
    spec fn inv(self) -> bool {
        self@.valid()
    }

    /// Default options (1x scale, no compression). At 1x the image is tiny on
    /// hi-DPI displays, most callers want `with_scale(3)` or higher.
    pub fn new() -> (renderer: Self)
        ensures
            renderer@ == KittyState::initial(KittyOpts { scale: 1, zlib: false }),
    {
        Self::with_opts(KittyOpts::default())
    }

    /// Convenience for the common "just change the scale" case.
    pub fn with_scale(scale: u32) -> (renderer: Self)
        ensures
            renderer@ == KittyState::initial(KittyOpts { scale, zlib: false }),
    {
        Self::with_opts(KittyOpts { scale, ..KittyOpts::default() })
    }

    /// The renderer with these options. A scale of zero is taken as one.
    pub fn with_opts(opts: KittyOpts) -> (renderer: Self)
        ensures
            renderer@ == KittyState::initial(opts),
    {
        let scale: u32 = if opts.scale == 0 {
            1
        } else {
            opts.scale
        };
        KittyRenderer { opts: KittyOpts { scale, zlib: opts.zlib }, next_id: 1, prev_id: None }
    }

    fn first_keys(&self, more: bool) -> (keys: String)
        ensures
            keys@ == self@.first_keys(more),
    {
        let mut keys = "a=T,f=24,s=".to_owned();
        push_decimal(&mut keys, NTSC_WIDTH as u64 * self.opts.scale as u64);
        keys.append(",v=");
        push_decimal(&mut keys, NTSC_HEIGHT as u64 * self.opts.scale as u64);
        keys.append(",i=");
        push_decimal(&mut keys, self.next_id as u64);
        keys.append(",q=2");
        keys.append(
            if self.opts.zlib {
                ",o=z"
            } else {
                ""
            },
        );
        keys.append(",m=");
        keys.append(more_str(more));
        keys
    }

    /// Shows the image whose pixels, deflated if the options say so, are
    /// `payload`: transmits it in base64 under the next id, then tells the
    /// terminal to garbage-collect the previous frame's image and its placement.
    /// This happens *after* the new placement is visible, so the screen is never
    /// blank.
    pub fn transmit(&mut self, payload: &[u8]) -> (out: Vec<u8>)
        ensures
            out@ == old(self)@.transmission(encode_utf8(base64_text(payload@))),
            final(self)@ == old(self)@.after_frame(),
            old(self)@.valid(),
    {
        proof {
            use_type_invariant(&*self);
        }
        let ghost encoded = encode_utf8(base64_text(payload@));
        let mut out: Vec<u8> = Vec::new();
        push_bytes(&mut out, CURSOR_HOME_BYTES.as_slice());
        let count: usize = payload.len() / CHUNK_BYTES + (if payload.len() % CHUNK_BYTES == 0 {
            0
        } else {
            1usize
        });
        proof {
            lemma_base64_is_plain(payload@);
            lemma_plain_bytes(base64_text(payload@));
        }
        assert(count == chunk_count(encoded.len()));
        for k in 0..count
            invariant
                encoded == encode_utf8(base64_text(payload@)),
                count == (payload.len() + 3071) / 3072,
                count == chunk_count(encoded.len()),
                out@ == CURSOR_HOME_BYTES@ + self@.packets(encoded, k as nat),
        {
            let start: usize = k * CHUNK_BYTES;
            let more = payload.len() - start > CHUNK_BYTES;
            let end: usize = if more {
                start + CHUNK_BYTES
            } else {
                payload.len()
            };
            let keys = if k == 0 {
                self.first_keys(more)
            } else {
                next_keys_text(more)
            };
            let text = base64_encode(slice_subrange(payload, start, end));
            proof {
                lemma_chunk_of_base64(payload@, k as int);
            }
            push_command(&mut out, keys.as_str(), text.as_str().as_bytes());
            assert(out@ =~= CURSOR_HOME_BYTES@ + self@.packets(encoded, (k + 1) as nat));
        }
        if let Some(prev) = self.prev_id {
            push_command(&mut out, delete_keys_text(prev).as_str(), [].as_slice());
        }
        assert(out@ =~= self@.transmission(encoded));
        let id = self.next_id;
        *self =
        KittyRenderer {
            opts: self.opts,
            next_id: if id == 1 {
                2
            } else {
                1
            },
            prev_id: Some(id),
        };
        out
    }
}

impl KittyRenderer {
    /// The scaled frame fits in memory.
    fn fits(&self) -> (fits: bool)
        ensures
            fits == self@.fits(),
    {
        let scale = self.opts.scale as u128;
        assert(scale * scale <= 0xffff_ffff * 0xffff_ffff && self@.scaled_len() == FRAME_BYTES * (
        scale * scale)) by (nonlinear_arith)
            requires
                0 <= scale <= 0xffff_ffff,
                scale == self.opts.scale,
                self@.scaled_len() == NTSC_WIDTH as nat * self.opts.scale as nat * (
                NTSC_HEIGHT as nat * self.opts.scale as nat) * 3,
                NTSC_WIDTH == 240,
                NTSC_HEIGHT == 224,
                FRAME_BYTES == 161280,
        ;
        let len: u128 = FRAME_BYTES as u128 * (scale * scale);
        let limit: u128 = isize::MAX as u128;
        len <= limit && (self.opts.zlib || (len + 2) / 3 * 4 <= limit)
    }

    /// What is to be transmitted for `frame`, before base64.
    fn payload(&self, frame: &RenderFrame) -> (payload: Vec<u8>)
        requires
            self@.scaled_len() <= isize::MAX,
        ensures
            self@.is_payload(frame@, payload@),
    {
        proof {
            use_type_invariant(self);
        }
        let src = frame.pixels_ntsc();
        assert(frame@.len() == 240 * 224 * 3);
        proof {
            let (w, h, scale) = (
                NTSC_WIDTH as nat,
                NTSC_HEIGHT as nat,
                self.opts.scale as nat,
            );
            upscaling_grows_quadratically(frame@, w, h, scale);
            assert(scale * scale >= 1) by (nonlinear_arith)
                requires
                    scale >= 1,
            ;
        }
        let pixels = if self.opts.scale == 1 {
            proof {
                upscaling_by_one_is_identity(frame@, NTSC_WIDTH as nat, NTSC_HEIGHT as nat);
            }
            slice_to_vec(src)
        } else {
            let ghost scale = self.opts.scale as int;
            assert(NTSC_WIDTH * scale * 3 <= self@.scaled_len()) by (nonlinear_arith)
                requires
                    scale >= 1,
                    scale == self.opts.scale,
                    self@.scaled_len() == NTSC_WIDTH as nat * self.opts.scale as nat * (
                    NTSC_HEIGHT as nat * self.opts.scale as nat) * 3,
                    NTSC_WIDTH == 240,
                    NTSC_HEIGHT == 224,
            ;
            nearest_neighbor_upscale_rgb(src, NTSC_WIDTH, NTSC_HEIGHT, self.opts.scale as usize)
        };
        if self.opts.zlib {
            deflate(pixels.as_slice())
        } else {
            pixels
        }
    }

    /// What [`KittyRenderer::transmit`] is to be given for `frame`, or `None`
    /// where the image would not fit in memory.
    pub fn try_payload(&self, frame: &RenderFrame) -> (payload: Option<Vec<u8>>)
        ensures
            match payload {
                Some(bytes) => {
                    &&& self.can_render(frame@)
                    &&& self@.is_payload(frame@, bytes@)
                    &&& sent_image(self@, encode_utf8(base64_text(bytes@))).pixels()
                        == self@.scaled(frame@)
                },
                None => !self.can_render(frame@),
            },
    {
        if !self.fits() {
            return None;
        }
        let payload = self.payload(frame);
        proof {
            lemma_sent_data(self@, payload@);
        }
        Some(payload)
    }

    /// Renders `frame` as [`Renderer::render`] does, or gives `None` and changes
    /// nothing where the image would not fit in memory.
    pub fn try_render(&mut self, frame: &RenderFrame) -> (out: Option<Vec<u8>>)
        ensures
            match out {
                Some(bytes) => {
                    &&& old(self).can_render(frame@)
                    &&& old(self)@.transmits(frame@, bytes@)
                    &&& final(self)@ == old(self)@.after_frame()
                },
                None => !old(self).can_render(frame@) && *final(self) == *old(self),
            },
    {
        if self.fits() {
            Some(self.render(frame))
        } else {
            None
        }
    }
}

impl Renderer for KittyRenderer {
    open spec fn can_render(&self, pixels: Seq<u8>) -> bool {
        self@.fits()
    }

    open spec fn renders(&self, pixels: Seq<u8>, out: Seq<u8>) -> bool {
        self@.transmits(pixels, out)
    }

    fn render(&mut self, frame: &RenderFrame) -> (out: Vec<u8>)
        ensures
            final(self)@ == old(self)@.after_frame(),
    {
        let payload = self.payload(frame);
        proof {
            lemma_sent_data(self@, payload@);
        }
        let out = self.transmit(payload.as_slice());
        assert(old(self)@.is_payload(frame@, payload@));
        assert(CURSOR_HOME_BYTES@.is_prefix_of(out@));
        out
    }

    /// The size of the terminal changes nothing: neither the next image id nor
    /// what is to be deleted.
    fn on_resize(&mut self, _cols: u16, _rows: u16)
        ensures
            *final(self) == *old(self),
    {
    }
}

impl Default for KittyRenderer {
    fn default() -> (renderer: Self)
        ensures
            renderer@ == KittyState::initial(KittyOpts { scale: 1, zlib: false }),
    {
        Self::new()
    }
}

} // verus!
