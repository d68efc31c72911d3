//! What holds of everything that is sent by the Kitty graphics protocol.

use vstd::prelude::*;
use vstd::utf8::*;

use crate::ansi::CURSOR_HOME_BYTES;
use crate::bytes::holds_whole;
use crate::bytes::lemma_no_occurrence;
use crate::bytes::lemma_occurrences_concat;
use crate::bytes::occurrences;
use crate::codec::base64_text;
use crate::frame::is_frame;
use crate::frame::NTSC_HEIGHT;
use crate::frame::NTSC_WIDTH;
use crate::kitty::chunk;
use crate::kitty::chunk_count;
use crate::kitty::command;
use crate::kitty::delete_keys;
use crate::kitty::KittyOpts;
use crate::kitty::KittyState;
use crate::kitty::CHUNK;
use crate::kitty_terminal::graphics_end;
use crate::kitty_terminal::graphics_start;
use crate::kitty_terminal::lemma_base64_is_plain;
use crate::kitty_terminal::lemma_chunk_is_plain;
use crate::kitty_terminal::lemma_command_bytes;
use crate::kitty_terminal::lemma_delete_keys;
use crate::kitty_terminal::lemma_keys;
use crate::text::is_plain;
use crate::text::lemma_plain_bytes;
use crate::upscale::upscaling_grows_quadratically;

verus! {

/// No chunk is empty or longer than the protocol allows, and each but the last
/// ends between two groups of four base64 characters.
pub proof fn chunks_have_legal_sizes(encoded: Seq<u8>, k: int)
    requires
        0 <= k < chunk_count(encoded.len()),
    ensures
        0 < chunk(encoded, k).len() <= CHUNK,
        k + 1 < chunk_count(encoded.len()) ==> chunk(encoded, k).len() % 4 == 0,
{
}

/// Ids alternate: the image that comes on screen never has the id of the one
/// that is deleted, that deletion is of the image sent just before, and every
/// second frame has the same id. Once there is an image to delete, two frames lead
/// back to where they began.
pub proof fn ids_alternate(state: KittyState)
    requires
        state.valid(),
    ensures
        state.prev_id != Some(state.next_id),
        state.after_frame().valid(),
        state.after_frame().prev_id == Some(state.next_id),
        state.after_frame().next_id != state.next_id,
        state.after_frame().after_frame().next_id == state.next_id,
        state.after_frame().opts == state.opts,
        state.prev_id is Some ==> state.after_frame().after_frame() == state,
{
}

/// Frame `n`, counted from one, has the id 1 where `n` is odd and 2 where it is
/// even. It deletes the frame before it, and the first deletes none.
pub proof fn ids_go_by_the_frame_number(opts: KittyOpts, n: nat)
    requires
        n >= 1,
    ensures
        ({
            let state = KittyState::initial(opts).after_frames((n - 1) as nat);
            &&& state.valid()
            &&& state.opts == KittyState::initial(opts).opts
            &&& state.next_id == (if n % 2 == 1 {
                1u32
            } else {
                2
            })
            &&& state.prev_id == if n == 1 {
                None
            } else if n % 2 == 1 {
                Some(2u32)
            } else {
                Some(1u32)
            }
        }),
    decreases n,
{
    if n > 1 {
        ids_go_by_the_frame_number(opts, (n - 1) as nat);
    }
}

/// A scale of zero is a scale of one: renderers made with either send the same.
pub proof fn scale_zero_is_scale_one(zlib: bool)
    ensures
        KittyState::initial(KittyOpts { scale: 0, zlib }) == KittyState::initial(
            KittyOpts { scale: 1, zlib },
        ),
{
}

/// Without compression, what is sent depends on the state and the frame alone.
pub proof fn plain_frames_have_one_transmission(
    state: KittyState,
    pixels: Seq<u8>,
    a: Seq<u8>,
    b: Seq<u8>,
)
    requires
        !state.opts.zlib,
        state.transmits(pixels, a),
        state.transmits(pixels, b),
    ensures
        a == b,
{
    let encoded = encode_utf8(base64_text(state.scaled(pixels)));
    assert(a == state.transmission(encoded));
    assert(b == state.transmission(encoded));
}

/// From the second frame on, a payload that is sent again two frames later gives
/// the same bytes; so does, without compression, a frame.
pub proof fn repeated_frames_repeat_their_bytes(state: KittyState)
    requires
        state.valid(),
        state.prev_id is Some,
    ensures
        forall|encoded: Seq<u8>| #[trigger]
            state.after_frame().after_frame().transmission(encoded) == state.transmission(encoded),
        !state.opts.zlib ==> forall|pixels: Seq<u8>, a: Seq<u8>, b: Seq<u8>|
            #![trigger state.transmits(pixels, a), state.after_frame().after_frame().transmits(
                pixels,
                b,
            )]
            state.transmits(pixels, a) && state.after_frame().after_frame().transmits(pixels, b)
                ==> a == b,
{
    assert(state.after_frame().after_frame() == state);
    if !state.opts.zlib {
        assert forall|pixels: Seq<u8>, a: Seq<u8>, b: Seq<u8>|
            #![trigger state.transmits(pixels, a), state.after_frame().after_frame().transmits(
                pixels,
                b,
            )]
            state.transmits(pixels, a) && state.after_frame().after_frame().transmits(
                pixels,
                b,
            ) implies a == b by {
            plain_frames_have_one_transmission(state, pixels, a, b);
        }
    }
}

/// Without compression, the base64 text grows with the square of the scale.
pub proof fn payload_grows_quadratically(state: KittyState, pixels: Seq<u8>, payload: Seq<u8>)
    requires
        is_frame(pixels),
        !state.opts.zlib,
        state.is_payload(pixels, payload),
    ensures
        base64_text(payload).len() == 215040 * (state.opts.scale * state.opts.scale),
{
    upscaling_grows_quadratically(
        pixels,
        NTSC_WIDTH as nat,
        NTSC_HEIGHT as nat,
        state.opts.scale as nat,
    );
    let area = state.opts.scale as nat * state.opts.scale as nat;
    assert(area == state.opts.scale * state.opts.scale);
}

/// `bytes` holds `starts` beginnings and `ends` ends of escape sequences, and
/// none of them can lie across its end.
spec fn counts(bytes: Seq<u8>, starts: nat, ends: nat) -> bool {
    &&& occurrences(bytes, graphics_start()) == starts
    &&& occurrences(bytes, graphics_end()) == ends
    &&& holds_whole(bytes, graphics_start())
    &&& holds_whole(bytes, graphics_end())
}

proof fn lemma_counts_concat(a: Seq<u8>, a1: nat, a2: nat, b: Seq<u8>, b1: nat, b2: nat)
    requires
        counts(a, a1, a2),
        counts(b, b1, b2),
    ensures
        counts(a + b, a1 + b1, a2 + b2),
{
    lemma_occurrences_concat(a, b, graphics_start());
    lemma_occurrences_concat(a, b, graphics_end());
    assert forall|pattern: Seq<u8>|
        holds_whole(a, pattern) && #[trigger] holds_whole(b, pattern) implies holds_whole(
        a + b,
        pattern,
    ) by {
        assert forall|i: int| 0 <= i < (a + b).len() < i + pattern.len() implies !(
        #[trigger] (a + b).skip(i)).is_prefix_of(pattern) by {
            if i < a.len() {
                if (a + b).skip(i).is_prefix_of(pattern) {
                    assert(a.skip(i) =~= (a + b).skip(i).subrange(0, a.len() - i));
                    assert(a.skip(i).is_prefix_of(pattern));
                }
            } else {
                assert((a + b).skip(i) =~= b.skip(i - a.len()));
            }
        }
    }
}

proof fn lemma_counts_plain(bytes: Seq<u8>)
    requires
        !bytes.contains(0x1b),
    ensures
        counts(bytes, 0, 0),
{
    lemma_no_occurrence(bytes, graphics_start());
    lemma_no_occurrence(bytes, graphics_end());
}

proof fn lemma_counts_start()
    ensures
        counts(graphics_start(), 1, 0),
{
    let bytes = graphics_start();
    let rest = bytes.drop_first();
    lemma_counts_plain(rest);
    assert(bytes.subrange(0, 3) =~= bytes);
    assert(bytes.subrange(0, 2)[1] != graphics_end()[1]);
    assert(bytes.skip(1)[0] == 0x5f && bytes.skip(2)[0] == 0x47);
}

proof fn lemma_counts_end()
    ensures
        counts(graphics_end(), 0, 1),
{
    let bytes = graphics_end();
    let rest = bytes.drop_first();
    lemma_counts_plain(rest);
    assert(bytes.subrange(0, 2) =~= bytes);
    assert(bytes.skip(0)[1] == 0x5c && bytes.skip(1)[0] == 0x5c);
    assert(!bytes.skip(0).is_prefix_of(graphics_start()));
}

proof fn lemma_counts_command(keys: Seq<char>, payload: Seq<u8>)
    requires
        is_plain(keys),
        !payload.contains(0x1b),
    ensures
        counts(command(keys, payload), 1, 1),
{
    lemma_command_bytes();
    lemma_counts_start();
    lemma_plain_bytes(keys);
    lemma_counts_plain(encode_utf8(keys));
    lemma_counts_plain(seq![0x3b]);
    lemma_counts_plain(payload);
    lemma_counts_end();
    let head = graphics_start() + encode_utf8(keys);
    lemma_counts_concat(graphics_start(), 1, 0, encode_utf8(keys), 0, 0);
    lemma_counts_concat(head, 1, 0, seq![0x3b], 0, 0);
    lemma_counts_concat(head + seq![0x3b], 1, 0, payload, 0, 0);
    lemma_counts_concat(head + seq![0x3b] + payload, 1, 0, graphics_end(), 0, 1);
}

proof fn lemma_counts_packets(state: KittyState, encoded: Seq<u8>, n: nat)
    requires
        n <= chunk_count(encoded.len()),
        !encoded.contains(0x1b),
    ensures
        counts(state.packets(encoded, n), n, n),
    decreases n,
{
    if n == 0 {
        lemma_counts_plain(Seq::empty());
    } else {
        let k = n - 1;
        lemma_counts_packets(state, encoded, k as nat);
        lemma_keys(state, k, k + 1 < chunk_count(encoded.len()));
        lemma_chunk_is_plain(encoded, k);
        lemma_counts_command(
            state.keys(k, k + 1 < chunk_count(encoded.len())),
            chunk(encoded, k),
        );
        lemma_counts_concat(
            state.packets(encoded, k as nat),
            k as nat,
            k as nat,
            state.packet(encoded, k),
            1,
            1,
        );
    }
}

/// Every escape sequence that is begun is ended: what is sent for a frame holds
/// one beginning and one end for each chunk, and for the deletion of the
/// previous frame, and no other.
pub proof fn escape_sequences_are_balanced(state: KittyState, payload: Seq<u8>)
    ensures
        ({
            let encoded = encode_utf8(base64_text(payload));
            let out = state.transmission(encoded);
            let sequences = chunk_count(encoded.len()) + (if state.prev_id is Some {
                1nat
            } else {
                0
            });
            &&& occurrences(out, graphics_start()) == sequences
            &&& occurrences(out, graphics_end()) == sequences
        }),
{
    let encoded = encode_utf8(base64_text(payload));
    let n = chunk_count(encoded.len());
    lemma_base64_is_plain(payload);
    lemma_plain_bytes(base64_text(payload));
    lemma_counts_packets(state, encoded, n);
    let home = CURSOR_HOME_BYTES@;
    assert(counts(home, 0, 0)) by {
        let rest = home.drop_first();
        lemma_counts_plain(rest);
        assert(home =~= seq![0x1b, 0x5b, 0x48]);
        assert(!rest.contains(0x1b));
        assert(home.subrange(0, 3)[1] == 0x5b && home.subrange(0, 2)[1] == 0x5b);
        assert(home.skip(1)[0] == 0x5b && home.skip(2)[0] == 0x48);
    }
    let sent = state.packets(encoded, n);
    lemma_counts_concat(home, 0, 0, sent, n, n);
    match state.prev_id {
        Some(id) => {
            lemma_delete_keys(id);
            lemma_counts_command(delete_keys(id), Seq::empty());
            lemma_counts_concat(home + sent, n, n, state.deletion(), 1, 1);
        },
        None => {
            assert(home + sent + state.deletion() =~= home + sent);
        },
    }
}

/// Options are kept as they are given, but for a scale of zero, and the first image
/// has the id 1 and deletes none.
pub proof fn options_are_kept(opts: KittyOpts)
    ensures
        opts.scale >= 1 ==> KittyState::initial(opts).opts == opts,
        opts.scale == 0 ==> KittyState::initial(opts).opts == (KittyOpts { scale: 1, ..opts }),
        KittyState::initial(opts).next_id == 1,
        KittyState::initial(opts).prev_id is None,
{
}

/// A frame fits exactly where its three bytes for each of `240 * scale` times
/// `224 * scale` pixels fit in memory and, if they are not compressed, the four
/// characters for each three of them do.
pub proof fn frames_fit_by_their_size(state: KittyState)
    ensures
        state.fits() <==> 161280 * (state.opts.scale * state.opts.scale) <= isize::MAX && (
        state.opts.zlib || 215040 * (state.opts.scale * state.opts.scale) <= isize::MAX),
{
    let (scale, area) = (state.opts.scale as nat, state.opts.scale * state.opts.scale);
    assert(240 * scale * (224 * scale) * 3 == 161280 * area) by (nonlinear_arith)
        requires
            area == scale * scale,
    ;
}

/// The chunks are the payload cut every 4096 bytes: all but the last have that
/// length, and each byte is in the chunk and at the place that its own place calls
/// for.
pub proof fn payloads_are_cut_every_4096_bytes(encoded: Seq<u8>, at: int)
    requires
        0 <= at < encoded.len(),
    ensures
        ({
            let (k, i) = (at / 4096, at % 4096);
            &&& 0 <= k < chunk_count(encoded.len())
            &&& i < chunk(encoded, k).len() <= 4096
            &&& chunk(encoded, k)[i] == encoded[at]
            &&& k + 1 < chunk_count(encoded.len()) ==> chunk(encoded, k).len() == 4096
            &&& k + 1 == chunk_count(encoded.len()) <==> encoded.len() <= (k + 1) * 4096
        }),
{
}

} // verus!
