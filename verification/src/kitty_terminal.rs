//! A terminal that speaks the Kitty graphics protocol, and what it shows.

use vstd::prelude::*;
use vstd::string::*;
use vstd::utf8::*;

use crate::ansi::CURSOR_HOME_BYTES;
use crate::codec::base64_decode;
use crate::codec::base64_decodes_to_what_was_encoded;
use crate::codec::base64_text;
use crate::codec::zlib_inflated;
use crate::frame::NTSC_HEIGHT;
use crate::frame::NTSC_WIDTH;
use crate::kitty::chunk;
use crate::kitty::chunk_count;
use crate::kitty::command;
use crate::kitty::delete_keys;
use crate::kitty::more_flag;
use crate::kitty::KittyRenderer;
use crate::kitty::KittyState;
use crate::renderer::Renderer;
use crate::text::decimal;
use crate::text::decimal_is_read_back;
use crate::text::is_plain;
use crate::text::lemma_decimal_is_digits;
use crate::text::lemma_plain_bytes;
use crate::text::lemma_split_more;
use crate::text::lemma_split_one;
use crate::text::numeral;
use crate::text::split;
use crate::upscale::upscaled_pixel_is_its_source;
use crate::upscale::upscaling_grows_quadratically;

verus! {

/// How a graphics command begins.
pub open spec fn graphics_start() -> Seq<u8> {
    seq![0x1b, 0x5f, 0x47]
}

/// How a graphics command ends.
pub open spec fn graphics_end() -> Seq<u8> {
    seq![0x1b, 0x5c]
}

/// The place of the first `b` in `bytes`, or their number where there is none.
pub open spec fn find(bytes: Seq<u8>, b: u8) -> int
    decreases bytes.len(),
{
    if bytes.len() == 0 || bytes[0] == b {
        0
    } else {
        1 + find(bytes.drop_first(), b)
    }
}

/// A graphics command: its control keys and its payload.
#[verifier::ext_equal]
pub struct Command {
    pub keys: Seq<char>,
    pub payload: Seq<u8>,
}

/// The graphics commands in `bytes`. Everything between them is passed over.
pub open spec fn commands(bytes: Seq<u8>) -> Seq<Command>
    decreases bytes.len(),
{
    if bytes.len() == 0 {
        seq![]
    } else if graphics_start().is_prefix_of(bytes) {
        let body = bytes.skip(3);
        let (semicolon, escape) = (find(body, 0x3b), find(body, 0x1b));
        if 0 <= semicolon < escape < body.len() - 1 {
            seq![
                Command {
                    keys: decode_utf8(body.take(semicolon)),
                    payload: body.subrange(semicolon + 1, escape),
                },
            ] + commands(body.skip(escape + 2))
        } else {
            seq![]
        }
    } else {
        commands(bytes.drop_first())
    }
}

/// The value of the key `name` in a list of `name=value` entries.
pub open spec fn value(list: Seq<Seq<char>>, name: char) -> Option<Seq<char>>
    decreases list.len(),
{
    if list.len() == 0 {
        None
    } else if list[0].len() >= 2 && list[0][0] == name && list[0][1] == '=' {
        Some(list[0].skip(2))
    } else {
        value(list.drop_first(), name)
    }
}

/// An image as it was transmitted: id, width and height in decimal, and the data
/// in base64.
#[verifier::ext_equal]
pub struct Image {
    pub id: Seq<char>,
    pub width: Seq<char>,
    pub height: Seq<char>,
    /// The data is compressed.
    pub zlib: bool,
    pub data: Seq<u8>,
}

impl Image {
    /// The bytes that the data stand for, before they are inflated.
    pub open spec fn decoded(self) -> Seq<u8> {
        base64_decode(decode_utf8(self.data))
    }

    /// The pixels.
    pub open spec fn pixels(self) -> Seq<u8> {
        if self.zlib {
            zlib_inflated(self.decoded())
        } else {
            self.decoded()
        }
    }
}

/// What a terminal holds: the images on screen by their ids, and the one of
/// which chunks are still to come.
#[verifier::ext_equal]
pub struct Terminal {
    pub images: Map<Seq<char>, Image>,
    pub loading: Option<Image>,
}

impl Terminal {
    /// The terminal after one more command: `a=d` deletes an image, `a=T` begins
    /// one, and anything else continues the one that is loading. An image comes
    /// on screen with its last chunk, the one without `m=1`.
    pub open spec fn step(self, command: Command) -> Terminal {
        let list = split(command.keys, ',');
        let action = value(list, 'a');
        if action == Some(seq!['d']) {
            Terminal { images: self.images.remove(value(list, 'i')->0), ..self }
        } else {
            let image = if action == Some(seq!['T']) {
                Image {
                    id: value(list, 'i')->0,
                    width: value(list, 's')->0,
                    height: value(list, 'v')->0,
                    zlib: value(list, 'o') == Some(seq!['z']),
                    data: command.payload,
                }
            } else {
                let begun = self.loading->0;
                Image { data: begun.data + command.payload, ..begun }
            };
            if value(list, 'm') == Some(seq!['1']) {
                Terminal { loading: Some(image), ..self }
            } else {
                Terminal { images: self.images.insert(image.id, image), loading: None }
            }
        }
    }

    /// The terminal after these commands.
    pub open spec fn after(self, commands: Seq<Command>) -> Terminal
        decreases commands.len(),
    {
        if commands.len() == 0 {
            self
        } else {
            self.after(commands.drop_last()).step(commands.last())
        }
    }

    /// The terminal shows the frame that `state` takes to be on screen, and
    /// nothing else.
    pub open spec fn shows_previous(self, state: KittyState) -> bool {
        &&& self.loading is None
        &&& self.images.dom() == match state.prev_id {
            Some(id) => set![decimal(id as nat)],
            None => set![],
        }
    }
}

/// The first `n` chunks of `encoded`, put together.
pub open spec fn joined_chunks(encoded: Seq<u8>, n: nat) -> Seq<u8>
    decreases n,
{
    if n == 0 {
        Seq::empty()
    } else {
        joined_chunks(encoded, (n - 1) as nat) + chunk(encoded, n - 1)
    }
}

proof fn lemma_joined_chunks(encoded: Seq<u8>, n: nat)
    requires
        n <= chunk_count(encoded.len()),
    ensures
        joined_chunks(encoded, n) == encoded.take(
            if n * 4096 < encoded.len() {
                (n * 4096) as int
            } else {
                encoded.len() as int
            },
        ),
    decreases n,
{
    if n > 0 {
        lemma_joined_chunks(encoded, (n - 1) as nat);
        assert(joined_chunks(encoded, n) =~= encoded.take(
            if n * 4096 < encoded.len() {
                (n * 4096) as int
            } else {
                encoded.len() as int
            },
        ));
    }
}

/// The chunks of a payload are the payload, in order and without a gap.
pub proof fn chunks_make_up_the_payload(encoded: Seq<u8>)
    ensures
        joined_chunks(encoded, chunk_count(encoded.len())) == encoded,
{
    lemma_joined_chunks(encoded, chunk_count(encoded.len()));
    assert(encoded.take(encoded.len() as int) =~= encoded);
}

/// Text of plain characters other than the semicolon.
pub open spec fn is_keys(text: Seq<char>) -> bool {
    is_plain(text) && forall|i: int| 0 <= i < text.len() ==> #[trigger] text[i] != ';'
}

/// The fixed parts of a command, as bytes.
pub proof fn lemma_command_bytes()
    ensures
        encode_utf8("\x1b_G"@) == graphics_start(),
        encode_utf8(";"@) == seq![0x3bu8],
        encode_utf8("\x1b\\"@) == graphics_end(),
{
    reveal_strlit("\x1b_G");
    reveal_strlit(";");
    reveal_strlit("\x1b\\");
    let (a, b, c) = ("\x1b_G"@, ";"@, "\x1b\\"@);
    is_ascii_chars_encode_utf8(a);
    is_ascii_chars_encode_utf8(b);
    is_ascii_chars_encode_utf8(c);
    assert(a[0] as u8 == encode_utf8(a)[0] && a[1] as u8 == encode_utf8(a)[1] && a[2] as u8
        == encode_utf8(a)[2]);
    assert(b[0] as u8 == encode_utf8(b)[0]);
    assert(c[0] as u8 == encode_utf8(c)[0] && c[1] as u8 == encode_utf8(c)[1]);
    assert(encode_utf8(a) =~= graphics_start());
    assert(encode_utf8(b) =~= seq![0x3bu8]);
    assert(encode_utf8(c) =~= graphics_end());
}

/// Base64 text is plain.
pub proof fn lemma_base64_is_plain(bytes: Seq<u8>)
    ensures
        is_plain(base64_text(bytes)),
{
}

/// A part of bytes without the escape character holds none.
pub proof fn lemma_chunk_is_plain(encoded: Seq<u8>, k: int)
    requires
        0 <= k < chunk_count(encoded.len()),
        !encoded.contains(0x1b),
    ensures
        !chunk(encoded, k).contains(0x1b),
{
    let part = chunk(encoded, k);
    assert forall|i: int| 0 <= i < part.len() implies part[i] != 0x1b by {
        assert(part[i] == encoded[k * 4096 + i]);
    }
}

proof fn lemma_find(a: Seq<u8>, b: u8, rest: Seq<u8>)
    requires
        !a.contains(b),
        rest.len() > 0,
        rest[0] == b,
    ensures
        find(a + rest, b) == a.len(),
    decreases a.len(),
{
    if a.len() == 0 {
        assert(a + rest =~= rest);
    } else {
        let tail = a.drop_first();
        assert(a[0] != b);
        assert forall|i: int| 0 <= i < tail.len() implies tail[i] != b by {
            assert(tail[i] == a[i + 1]);
        }
        lemma_find(tail, b, rest);
        assert((a + rest).drop_first() =~= tail + rest);
    }
}

/// A command that was written is read.
proof fn lemma_read_command(keys: Seq<char>, payload: Seq<u8>, rest: Seq<u8>)
    requires
        is_keys(keys),
        !payload.contains(0x1b),
    ensures
        commands(command(keys, payload) + rest) == seq![Command { keys, payload }] + commands(rest),
{
    lemma_command_bytes();
    lemma_plain_bytes(keys);
    let k = encode_utf8(keys);
    is_ascii_chars_encode_utf8(keys);
    assert forall|i: int| 0 <= i < k.len() implies k[i] != 0x3b by {
        assert(keys[i] as u8 == k[i]);
    }
    let bytes = command(keys, payload) + rest;
    let body = bytes.skip(3);
    let tail = payload + graphics_end() + rest;
    assert(bytes =~= graphics_start() + (k + (seq![0x3bu8] + tail)));
    assert(graphics_start() =~= bytes.subrange(0, 3));
    assert(body =~= k + (seq![0x3bu8] + tail));
    lemma_find(k, 0x3b, seq![0x3bu8] + tail);
    let front = k + seq![0x3bu8] + payload;
    assert forall|i: int| 0 <= i < front.len() implies front[i] != 0x1b by {
        if i < k.len() {
            assert(front[i] == k[i]);
        } else if i > k.len() {
            assert(front[i] == payload[i - k.len() - 1]);
        }
    }
    assert(body =~= front + (graphics_end() + rest));
    lemma_find(front, 0x1b, graphics_end() + rest);
    assert(body.take(k.len() as int) =~= k);
    assert(body.subrange(k.len() as int + 1, front.len() as int) =~= payload);
    assert(body.skip(front.len() as int + 2) =~= rest);
    encode_utf8_decode_utf8(keys);
}

/// Homing the cursor is no graphics command.
proof fn lemma_home_is_passed_over(rest: Seq<u8>)
    ensures
        commands(CURSOR_HOME_BYTES@ + rest) == commands(rest),
{
    let home = CURSOR_HOME_BYTES@;
    assert(home =~= seq![0x1bu8, 0x5b, 0x48]);
    let a = home + rest;
    let b = a.drop_first();
    let c = b.drop_first();
    assert(a[1] == 0x5b && b[0] == 0x5b && c[0] == 0x48);
    if a.len() >= 3 {
        assert(graphics_start()[1] != a.subrange(0, 3)[1]);
    }
    assert(!graphics_start().is_prefix_of(a));
    if b.len() >= 3 {
        assert(graphics_start()[0] != b.subrange(0, 3)[0]);
    }
    assert(!graphics_start().is_prefix_of(b));
    if c.len() >= 3 {
        assert(graphics_start()[0] != c.subrange(0, 3)[0]);
    }
    assert(!graphics_start().is_prefix_of(c));
    assert(c.drop_first() =~= rest);
    assert(commands(a) == commands(b));
    assert(commands(b) == commands(c));
    assert(commands(c) == commands(c.drop_first()));
}

proof fn lemma_keys_concat(a: Seq<char>, b: Seq<char>)
    requires
        is_keys(a),
        is_keys(b),
    ensures
        is_keys(a + b),
{
}

proof fn lemma_decimal_is_keys(n: nat)
    ensures
        is_keys(decimal(n)),
        !decimal(n).contains(','),
{
    lemma_decimal_is_digits(n);
}

/// Control keys are plain text without a semicolon.
pub proof fn lemma_keys(state: KittyState, k: int, more: bool)
    ensures
        is_keys(state.keys(k, more)),
{
    reveal_strlit("a=T,f=24,s=");
    reveal_strlit(",v=");
    reveal_strlit(",i=");
    reveal_strlit(",q=2");
    reveal_strlit(",o=z");
    reveal_strlit("");
    reveal_strlit(",m=");
    reveal_strlit("m=");
    reveal_strlit("0");
    reveal_strlit("1");
    let w = decimal((NTSC_WIDTH * state.opts.scale) as nat);
    let h = decimal((NTSC_HEIGHT * state.opts.scale) as nat);
    let id = decimal(state.next_id as nat);
    let compress = if state.opts.zlib {
        ",o=z"@
    } else {
        ""@
    };
    lemma_decimal_is_keys((NTSC_WIDTH * state.opts.scale) as nat);
    lemma_decimal_is_keys((NTSC_HEIGHT * state.opts.scale) as nat);
    lemma_decimal_is_keys(state.next_id as nat);
    lemma_keys_concat("m="@, more_flag(more));
    let c = "a=T,f=24,s="@;
    lemma_keys_concat(c, w);
    let c = c + w;
    lemma_keys_concat(c, ",v="@);
    let c = c + ",v="@;
    lemma_keys_concat(c, h);
    let c = c + h;
    lemma_keys_concat(c, ",i="@);
    let c = c + ",i="@;
    lemma_keys_concat(c, id);
    let c = c + id;
    lemma_keys_concat(c, ",q=2"@);
    let c = c + ",q=2"@;
    lemma_keys_concat(c, compress);
    let c = c + compress;
    lemma_keys_concat(c, ",m="@);
    let c = c + ",m="@;
    lemma_keys_concat(c, more_flag(more));
}

/// So are those of a deletion.
pub proof fn lemma_delete_keys(id: u32)
    ensures
        is_keys(delete_keys(id)),
{
    reveal_strlit("a=d,d=I,i=");
    reveal_strlit(",q=2");
    lemma_decimal_is_keys(id as nat);
    lemma_keys_concat("a=d,d=I,i="@, decimal(id as nat));
    lemma_keys_concat("a=d,d=I,i="@ + decimal(id as nat), ",q=2"@);
}

/// The commands that transmit the first `n` chunks of `encoded`.
pub open spec fn chunk_commands(state: KittyState, encoded: Seq<u8>, n: nat) -> Seq<Command> {
    Seq::new(
        n,
        |k: int|
            Command {
                keys: state.keys(k, k + 1 < chunk_count(encoded.len())),
                payload: chunk(encoded, k),
            },
    )
}

/// The command that deletes the frame on screen, if there is one.
pub open spec fn deletion_commands(state: KittyState) -> Seq<Command> {
    match state.prev_id {
        Some(id) => seq![Command { keys: delete_keys(id), payload: seq![] }],
        None => seq![],
    }
}

proof fn lemma_read_packets(state: KittyState, encoded: Seq<u8>, n: nat, rest: Seq<u8>)
    requires
        n <= chunk_count(encoded.len()),
        !encoded.contains(0x1b),
    ensures
        commands(state.packets(encoded, n) + rest) == chunk_commands(state, encoded, n) + commands(
            rest,
        ),
    decreases n,
{
    if n == 0 {
        assert(state.packets(encoded, n) + rest =~= rest);
        assert(chunk_commands(state, encoded, n) + commands(rest) =~= commands(rest));
    } else {
        let k = n - 1;
        let more = k + 1 < chunk_count(encoded.len());
        lemma_keys(state, k, more);
        lemma_chunk_is_plain(encoded, k);
        lemma_read_command(state.keys(k, more), chunk(encoded, k), rest);
        lemma_read_packets(state, encoded, k as nat, state.packet(encoded, k) + rest);
        assert(state.packets(encoded, n) + rest =~= state.packets(encoded, k as nat) + (
        state.packet(encoded, k) + rest));
        assert(chunk_commands(state, encoded, n) + commands(rest) =~= chunk_commands(
            state,
            encoded,
            k as nat,
        ) + commands(state.packet(encoded, k) + rest));
    }
}

/// What a terminal reads out of a transmission: the chunks of the new image in
/// order, then the deletion of the old one. Control keys other than `m` come
/// with the first chunk only, and `m=1` with each but the last.
pub proof fn terminal_reads_the_commands(state: KittyState, payload: Seq<u8>)
    ensures
        ({
            let encoded = encode_utf8(base64_text(payload));
            commands(state.transmission(encoded)) == chunk_commands(
                state,
                encoded,
                chunk_count(encoded.len()),
            ) + deletion_commands(state)
        }),
{
    let encoded = encode_utf8(base64_text(payload));
    let n = chunk_count(encoded.len());
    lemma_base64_is_plain(payload);
    lemma_plain_bytes(base64_text(payload));
    let sent = state.packets(encoded, n);
    let tail = state.deletion();
    lemma_home_is_passed_over(sent + tail);
    assert(state.transmission(encoded) =~= CURSOR_HOME_BYTES@ + (sent + tail));
    lemma_read_packets(state, encoded, n, tail);
    match state.prev_id {
        Some(id) => {
            lemma_delete_keys(id);
            lemma_read_command(delete_keys(id), seq![], seq![]);
            assert(tail + seq![] =~= tail);
            assert(commands(tail) =~= deletion_commands(state));
        },
        None => {},
    }
}

/// An entry of a list of control keys.
pub open spec fn entry(name: char, value: Seq<char>) -> Seq<char> {
    seq![name, '='] + value
}

/// What the control keys of chunk `k` say.
pub open spec fn key_list(state: KittyState, k: int, more: bool) -> Seq<Seq<char>> {
    let flag = entry('m', more_flag(more));
    if k == 0 {
        seq![
            entry('a', seq!['T']),
            entry('f', seq!['2', '4']),
            entry('s', decimal((NTSC_WIDTH * state.opts.scale) as nat)),
            entry('v', decimal((NTSC_HEIGHT * state.opts.scale) as nat)),
            entry('i', decimal(state.next_id as nat)),
            entry('q', seq!['2']),
        ] + (if state.opts.zlib {
            seq![entry('o', seq!['z'])]
        } else {
            seq![]
        }) + seq![flag]
    } else {
        seq![flag]
    }
}

/// What the control keys of a deletion say.
pub open spec fn delete_list(id: u32) -> Seq<Seq<char>> {
    seq![
        entry('a', seq!['d']),
        entry('d', seq!['I']),
        entry('i', decimal(id as nat)),
        entry('q', seq!['2']),
    ]
}

proof fn lemma_one_entry(name: char, value: Seq<char>)
    requires
        name != ',',
        !value.contains(','),
    ensures
        split(entry(name, value), ',') == seq![entry(name, value)],
{
    lemma_entry_without_comma(name, value);
    lemma_split_one(entry(name, value), ',');
}

proof fn lemma_another_entry(before: Seq<char>, name: char, value: Seq<char>)
    requires
        name != ',',
        !value.contains(','),
    ensures
        split(before + seq![','] + entry(name, value), ',') == split(before, ',').push(
            entry(name, value),
        ),
{
    lemma_entry_without_comma(name, value);
    lemma_split_more(before, entry(name, value), ',');
    assert(before + seq![','] =~= before.push(','));
}

proof fn lemma_entry_without_comma(name: char, value: Seq<char>)
    requires
        name != ',',
        !value.contains(','),
    ensures
        !entry(name, value).contains(','),
{
    let e = entry(name, value);
    assert forall|i: int| 0 <= i < e.len() implies e[i] != ',' by {
        if i >= 2 {
            assert(e[i] == value[i - 2]);
        }
    }
}

proof fn lemma_key_list(state: KittyState, k: int, more: bool)
    ensures
        split(state.keys(k, more), ',') == key_list(state, k, more),
{
    reveal_strlit("a=T,f=24,s=");
    reveal_strlit(",v=");
    reveal_strlit(",i=");
    reveal_strlit(",q=2");
    reveal_strlit(",o=z");
    reveal_strlit("");
    reveal_strlit(",m=");
    reveal_strlit("m=");
    reveal_strlit("0");
    reveal_strlit("1");
    let flag = more_flag(more);
    if k != 0 {
        assert(state.keys(k, more) =~= entry('m', flag));
        lemma_one_entry('m', flag);
    } else {
        let w = decimal((NTSC_WIDTH * state.opts.scale) as nat);
        let h = decimal((NTSC_HEIGHT * state.opts.scale) as nat);
        let id = decimal(state.next_id as nat);
        lemma_decimal_is_keys((NTSC_WIDTH * state.opts.scale) as nat);
        lemma_decimal_is_keys((NTSC_HEIGHT * state.opts.scale) as nat);
        lemma_decimal_is_keys(state.next_id as nat);
        let a = entry('a', seq!['T']);
        lemma_one_entry('a', seq!['T']);
        let b = a + seq![','] + entry('f', seq!['2', '4']);
        lemma_another_entry(a, 'f', seq!['2', '4']);
        let c = b + seq![','] + entry('s', w);
        lemma_another_entry(b, 's', w);
        assert(c =~= "a=T,f=24,s="@ + w);
        let d = c + seq![','] + entry('v', h);
        lemma_another_entry(c, 'v', h);
        assert(d =~= c + ",v="@ + h);
        let e = d + seq![','] + entry('i', id);
        lemma_another_entry(d, 'i', id);
        assert(e =~= d + ",i="@ + id);
        let f = e + seq![','] + entry('q', seq!['2']);
        lemma_another_entry(e, 'q', seq!['2']);
        assert(f =~= e + ",q=2"@);
        let z = f + seq![','] + entry('o', seq!['z']);
        lemma_another_entry(f, 'o', seq!['z']);
        assert(z =~= f + ",o=z"@);
        assert(f =~= f + ""@);
        let g = if state.opts.zlib {
            z
        } else {
            f
        };
        let last = g + seq![','] + entry('m', flag);
        lemma_another_entry(g, 'm', flag);
        assert(last =~= g + ",m="@ + flag);
        assert(state.keys(k, more) == last);
        assert(split(last, ',') =~= key_list(state, k, more));
    }
}

proof fn lemma_delete_list(id: u32)
    ensures
        split(delete_keys(id), ',') == delete_list(id),
{
    reveal_strlit("a=d,d=I,i=");
    reveal_strlit(",q=2");
    let n = decimal(id as nat);
    lemma_decimal_is_keys(id as nat);
    let a = entry('a', seq!['d']);
    lemma_one_entry('a', seq!['d']);
    let b = a + seq![','] + entry('d', seq!['I']);
    lemma_another_entry(a, 'd', seq!['I']);
    let c = b + seq![','] + entry('i', n);
    lemma_another_entry(b, 'i', n);
    assert(c =~= "a=d,d=I,i="@ + n);
    let d = c + seq![','] + entry('q', seq!['2']);
    lemma_another_entry(c, 'q', seq!['2']);
    assert(d =~= delete_keys(id));
    assert(split(d, ',') =~= delete_list(id));
}

/// The value of a key is that of the first entry with its name.
proof fn lemma_value(list: Seq<Seq<char>>, at: int, name: char, v: Seq<char>)
    requires
        0 <= at < list.len(),
        list[at] == entry(name, v),
        forall|i: int| 0 <= i < at ==> (#[trigger] list[i]).len() > 0 && list[i][0] != name,
    ensures
        value(list, name) == Some(v),
    decreases at,
{
    if at == 0 {
        assert(entry(name, v).skip(2) =~= v);
    } else {
        let rest = list.drop_first();
        assert(list[0][0] != name);
        assert forall|i: int| 0 <= i < at - 1 implies (#[trigger] rest[i]).len() > 0 && rest[i][0]
            != name by {
            assert(rest[i] == list[i + 1]);
        }
        lemma_value(rest, at - 1, name, v);
    }
}

proof fn lemma_no_value(list: Seq<Seq<char>>, name: char)
    requires
        forall|i: int|
            0 <= i < list.len() ==> (#[trigger] list[i]).len() > 0 && list[i][0] != name,
    ensures
        value(list, name) is None,
    decreases list.len(),
{
    if list.len() > 0 {
        let rest = list.drop_first();
        assert(list[0][0] != name);
        assert forall|i: int| 0 <= i < rest.len() implies (#[trigger] rest[i]).len() > 0
            && rest[i][0] != name by {
            assert(rest[i] == list[i + 1]);
        }
        lemma_no_value(rest, name);
    }
}

/// What a terminal takes from the control keys of chunk `k`.
proof fn lemma_key_values(state: KittyState, k: int, more: bool)
    ensures
        ({
            let list = split(state.keys(k, more), ',');
            &&& value(list, 'm') == Some(more_flag(more))
            &&& k == 0 ==> {
                &&& value(list, 'a') == Some(seq!['T'])
                &&& value(list, 'i') == Some(decimal(state.next_id as nat))
                &&& value(list, 's') == Some(decimal((NTSC_WIDTH * state.opts.scale) as nat))
                &&& value(list, 'v') == Some(decimal((NTSC_HEIGHT * state.opts.scale) as nat))
                &&& (value(list, 'o') == Some(seq!['z']) <==> state.opts.zlib)
            }
            &&& k != 0 ==> value(list, 'a') is None
        }),
{
    lemma_key_list(state, k, more);
    let list = key_list(state, k, more);
    lemma_value(list, list.len() - 1, 'm', more_flag(more));
    if k == 0 {
        lemma_value(list, 0, 'a', seq!['T']);
        lemma_value(list, 2, 's', decimal((NTSC_WIDTH * state.opts.scale) as nat));
        lemma_value(list, 3, 'v', decimal((NTSC_HEIGHT * state.opts.scale) as nat));
        lemma_value(list, 4, 'i', decimal(state.next_id as nat));
        if state.opts.zlib {
            lemma_value(list, 6, 'o', seq!['z']);
        } else {
            lemma_no_value(list, 'o');
        }
    } else {
        lemma_no_value(list, 'a');
    }
}

proof fn lemma_delete_values(id: u32)
    ensures
        ({
            let list = split(delete_keys(id), ',');
            &&& value(list, 'a') == Some(seq!['d'])
            &&& value(list, 'i') == Some(decimal(id as nat))
        }),
{
    lemma_delete_list(id);
    lemma_value(delete_list(id), 0, 'a', seq!['d']);
    lemma_value(delete_list(id), 2, 'i', decimal(id as nat));
}

/// The image that `state` transmits, once these data have come.
pub open spec fn sent_image(state: KittyState, data: Seq<u8>) -> Image {
    Image {
        id: decimal(state.next_id as nat),
        width: decimal((NTSC_WIDTH * state.opts.scale) as nat),
        height: decimal((NTSC_HEIGHT * state.opts.scale) as nat),
        zlib: state.opts.zlib,
        data,
    }
}

/// While chunks come, the screen stays as it is; with the last the image is on
/// it.
proof fn lemma_after_chunks(terminal: Terminal, state: KittyState, encoded: Seq<u8>, n: nat)
    requires
        0 < n <= chunk_count(encoded.len()),
    ensures
        ({
            let image = sent_image(state, joined_chunks(encoded, n));
            terminal.after(chunk_commands(state, encoded, n)) == if n < chunk_count(encoded.len()) {
                Terminal { images: terminal.images, loading: Some(image) }
            } else {
                Terminal { images: terminal.images.insert(image.id, image), loading: None }
            }
        }),
    decreases n,
{
    let sent = chunk_commands(state, encoded, n);
    let before = chunk_commands(state, encoded, (n - 1) as nat);
    let more = n < chunk_count(encoded.len());
    reveal_strlit("0");
    reveal_strlit("1");
    assert(more_flag(more) == seq!['1'] <==> more) by {
        assert("1"@ =~= seq!['1']);
        assert("0"@[0] == '0' && seq!['1'][0] == '1');
    }
    assert(seq!['T'][0] != seq!['d'][0]);
    assert(sent.drop_last() =~= before);
    lemma_key_values(state, n - 1, more);
    assert(joined_chunks(encoded, (n - 1) as nat) + chunk(encoded, n - 1) == joined_chunks(
        encoded,
        n,
    ));
    if n > 1 {
        lemma_after_chunks(terminal, state, encoded, (n - 1) as nat);
    } else {
        assert(joined_chunks(encoded, 0) + chunk(encoded, 0) =~= chunk(encoded, 0));
    }
}

/// The data of the image decode to the payload.
pub proof fn lemma_sent_data(state: KittyState, payload: Seq<u8>)
    ensures
        sent_image(state, encode_utf8(base64_text(payload))).decoded() == payload,
{
    encode_utf8_decode_utf8(base64_text(payload));
    base64_decodes_to_what_was_encoded(payload);
}

/// A terminal that shows the previous frame, or none yet, shows after a
/// transmission the image that was sent and no other: with the id that was next,
/// the size of the scaled frame, and data that decode to the payload.
pub proof fn terminal_shows_what_was_sent(state: KittyState, payload: Seq<u8>, terminal: Terminal)
    requires
        state.valid(),
        payload.len() > 0,
        terminal.shows_previous(state),
    ensures
        ({
            let encoded = encode_utf8(base64_text(payload));
            let image = sent_image(state, encoded);
            let after = terminal.after(commands(state.transmission(encoded)));
            &&& image.decoded() == payload
            &&& after.images == map![image.id => image]
            &&& after.shows_previous(state.after_frame())
        }),
{
    let encoded = encode_utf8(base64_text(payload));
    let n = chunk_count(encoded.len());
    let image = sent_image(state, encoded);
    let sent = chunk_commands(state, encoded, n);
    lemma_base64_is_plain(payload);
    lemma_plain_bytes(base64_text(payload));
    terminal_reads_the_commands(state, payload);
    lemma_after_chunks(terminal, state, encoded, n);
    chunks_make_up_the_payload(encoded);
    lemma_sent_data(state, payload);
    let shown = terminal.after(sent);
    match state.prev_id {
        Some(id) => {
            lemma_delete_values(id);
            lemma_small_ids_differ();
            let all = sent + deletion_commands(state);
            assert(all.drop_last() =~= sent);
            assert(all.last() == deletion_commands(state)[0]);
            assert(terminal.after(all) == shown.step(all.last()));
            assert(terminal.after(all).images =~= map![image.id => image]);
        },
        None => {
            assert(sent + deletion_commands(state) =~= sent);
            assert(shown.images =~= map![image.id => image]);
        },
    }
    assert(map![image.id => image].dom() =~= set![image.id]);
}

proof fn lemma_small_ids_differ()
    ensures
        decimal(1) != decimal(2),
{
    assert(decimal(1)[0] == '1' && decimal(2)[0] == '2');
}

/// While one frame takes the place of another, the screen is never blank: after
/// each command of the transmission the old image is still there, or the new
/// one is there already.
pub proof fn screen_is_never_blank(
    state: KittyState,
    payload: Seq<u8>,
    terminal: Terminal,
    old_id: u32,
    j: int,
)
    requires
        state.valid(),
        payload.len() > 0,
        terminal.shows_previous(state),
        state.prev_id == Some(old_id),
        0 <= j <= commands(state.transmission(encode_utf8(base64_text(payload)))).len(),
    ensures
        ({
            let read = commands(state.transmission(encode_utf8(base64_text(payload))));
            let images = terminal.after(read.take(j)).images;
            images.contains_key(decimal(old_id as nat)) || images.contains_key(
                decimal(state.next_id as nat),
            )
        }),
{
    let encoded = encode_utf8(base64_text(payload));
    let n = chunk_count(encoded.len());
    let read = commands(state.transmission(encoded));
    terminal_reads_the_commands(state, payload);
    if j == read.len() {
        assert(read.take(j) =~= read);
        terminal_shows_what_was_sent(state, payload, terminal);
        let image = sent_image(state, encoded);
        assert(map![image.id => image].contains_key(image.id));
    } else if j > 0 {
        assert(read.take(j) =~= chunk_commands(state, encoded, j as nat));
        lemma_after_chunks(terminal, state, encoded, j as nat);
        assert(terminal.images.dom().contains(decimal(old_id as nat)));
    } else {
        assert(terminal.images.dom().contains(decimal(old_id as nat)));
    }
}

/// A terminal that shows the previous frame, or none yet, shows after a rendered
/// frame one image and no other: under the id that was next, and with the pixels
/// of the frame, each as a block of `scale` by `scale`.
pub proof fn terminal_shows_the_frame(
    state: KittyState,
    pixels: Seq<u8>,
    out: Seq<u8>,
    terminal: Terminal,
)
    requires
        state.valid(),
        state.transmits(pixels, out),
        terminal.shows_previous(state),
    ensures
        ({
            let id = decimal(state.next_id as nat);
            let after = terminal.after(commands(out));
            &&& after.images.dom() == set![id]
            &&& after.images[id].id == id
            &&& after.images[id].width == decimal((NTSC_WIDTH * state.opts.scale) as nat)
            &&& after.images[id].height == decimal((NTSC_HEIGHT * state.opts.scale) as nat)
            &&& after.images[id].pixels() == state.scaled(pixels)
            &&& after.shows_previous(state.after_frame())
        }),
{
    let payload = choose|payload: Seq<u8>|
        {
            let encoded = encode_utf8(base64_text(payload));
            &&& #[trigger] state.is_payload(pixels, payload)
            &&& sent_image(state, encoded).pixels() == state.scaled(pixels)
            &&& out == state.transmission(encoded)
        };
    terminal_shows_what_was_sent(state, payload, terminal);
    let image = sent_image(state, encode_utf8(base64_text(payload)));
    assert(map![image.id => image].dom() =~= set![image.id]);
}

impl Terminal {
    /// The terminal once frames with these payloads were sent to it, one behind the
    /// other, by a renderer that was in `state`.
    pub open spec fn after_frames(self, state: KittyState, payloads: Seq<Seq<u8>>) -> Terminal
        decreases payloads.len(),
    {
        if payloads.len() == 0 {
            self
        } else {
            let n = (payloads.len() - 1) as nat;
            let encoded = encode_utf8(base64_text(payloads.last()));
            self.after_frames(state, payloads.drop_last()).after(
                commands(state.after_frames(n).transmission(encoded)),
            )
        }
    }
}

/// However many frames were sent, exactly one image is on screen: the last that was
/// sent.
pub proof fn one_image_is_live(state: KittyState, payloads: Seq<Seq<u8>>, terminal: Terminal)
    requires
        state.valid(),
        terminal.shows_previous(state),
        forall|i: int| 0 <= i < payloads.len() ==> (#[trigger] payloads[i]).len() > 0,
    ensures
        ({
            let after = terminal.after_frames(state, payloads);
            &&& state.after_frames(payloads.len()).valid()
            &&& after.shows_previous(state.after_frames(payloads.len()))
            &&& payloads.len() > 0 ==> {
                let sender = state.after_frames((payloads.len() - 1) as nat);
                let image = sent_image(sender, encode_utf8(base64_text(payloads.last())));
                &&& after.images == map![image.id => image]
                &&& image.decoded() == payloads.last()
            }
        }),
    decreases payloads.len(),
{
    if payloads.len() > 0 {
        let before = payloads.drop_last();
        assert forall|i: int| 0 <= i < before.len() implies (#[trigger] before[i]).len() > 0 by {
            assert(before[i] == payloads[i]);
        }
        one_image_is_live(state, before, terminal);
        assert(payloads.last() == payloads[payloads.len() - 1]);
        terminal_shows_what_was_sent(
            state.after_frames(before.len()),
            payloads.last(),
            terminal.after_frames(state, before),
        );
    }
}

/// Once a frame was rendered, the image that the terminal holds is announced as
/// `240 * scale` wide and `224 * scale` high and lies row by row in that width, and
/// each of its pixels is the pixel of the frame in whose `scale` by `scale` block
/// it lies.
pub proof fn every_image_pixel_is_its_frame_pixel(
    state: KittyState,
    frame: Seq<u8>,
    out: Seq<u8>,
    terminal: Terminal,
    row: int,
    col: int,
    channel: int,
)
    requires
        state.valid(),
        frame.len() == 240 * 224 * 3,
        state.transmits(frame, out),
        terminal.shows_previous(state),
        0 <= row < 224 * state.opts.scale,
        0 <= col < 240 * state.opts.scale,
        0 <= channel < 3,
    ensures
        ({
            let scale = state.opts.scale as int;
            let image = terminal.after(commands(out)).images[decimal(state.next_id as nat)];
            let data = image.pixels();
            &&& numeral(image.width) == 240 * scale
            &&& numeral(image.height) == 224 * scale
            &&& data.len() == 240 * 224 * 3 * (scale * scale)
            &&& 0 <= (row * (240 * scale) + col) * 3 + channel < data.len()
            &&& data[(row * (240 * scale) + col) * 3 + channel] == frame[(row / scale * 240 + col
                / scale) * 3 + channel]
        }),
{
    let scale = state.opts.scale as nat;
    terminal_shows_the_frame(state, frame, out, terminal);
    upscaled_pixel_is_its_source(frame, 240, 224, scale, row, col, channel);
    upscaling_grows_quadratically(frame, 240, 224, scale);
    decimal_is_read_back((NTSC_WIDTH * state.opts.scale) as nat);
    decimal_is_read_back((NTSC_HEIGHT * state.opts.scale) as nat);
    assert(scale as int * scale as int == scale * scale);
}

/// The control keys of the first chunk say: transmit and display, 24-bit pixels,
/// the size, the id, no answer, whether the data are compressed, whether chunks
/// follow, and nothing else. Those of the others only say whether chunks follow,
/// and those of a deletion name the image to be deleted with its data.
pub proof fn control_keys_say_what_is_sent(state: KittyState, k: int, more: bool, id: u32)
    ensures
        ({
            let first = split(state.keys(0, more), ',');
            let flag = if more {
                seq!['1']
            } else {
                seq!['0']
            };
            &&& first.len() == (if state.opts.zlib {
                8int
            } else {
                7
            })
            &&& value(first, 'a') == Some(seq!['T'])
            &&& value(first, 'f') == Some(seq!['2', '4'])
            &&& value(first, 's') == Some(decimal((240 * state.opts.scale) as nat))
            &&& value(first, 'v') == Some(decimal((224 * state.opts.scale) as nat))
            &&& value(first, 'i') == Some(decimal(state.next_id as nat))
            &&& value(first, 'q') == Some(seq!['2'])
            &&& value(first, 'o') == (if state.opts.zlib {
                Some(seq!['z'])
            } else {
                None
            })
            &&& value(first, 'm') == Some(flag)
            &&& k != 0 ==> state.keys(k, more) == seq!['m', '='] + flag
        }),
        ({
            let list = split(delete_keys(id), ',');
            &&& list.len() == 4
            &&& value(list, 'a') == Some(seq!['d'])
            &&& value(list, 'd') == Some(seq!['I'])
            &&& value(list, 'i') == Some(decimal(id as nat))
            &&& value(list, 'q') == Some(seq!['2'])
        }),
{
    reveal_strlit("0");
    reveal_strlit("1");
    reveal_strlit("m=");
    assert("0"@ =~= seq!['0']);
    assert("1"@ =~= seq!['1']);
    assert("m="@ =~= seq!['m', '=']);
    lemma_key_list(state, 0, more);
    lemma_key_values(state, 0, more);
    let list = key_list(state, 0, more);
    lemma_value(list, 1, 'f', seq!['2', '4']);
    lemma_value(list, 5, 'q', seq!['2']);
    if !state.opts.zlib {
        lemma_no_value(list, 'o');
    }
    lemma_delete_list(id);
    lemma_delete_values(id);
    lemma_value(delete_list(id), 1, 'd', seq!['I']);
    lemma_value(delete_list(id), 3, 'q', seq!['2']);
}

/// What a renderer renders is read by a terminal as an image of the frame, each
/// pixel in its place, and it can render whatever fits in memory.
pub proof fn rendered_frames_are_shown(
    renderer: KittyRenderer,
    frame: Seq<u8>,
    out: Seq<u8>,
    terminal: Terminal,
    row: int,
    col: int,
    channel: int,
)
    requires
        renderer@.valid(),
        frame.len() == 240 * 224 * 3,
        renderer.renders(frame, out),
        terminal.shows_previous(renderer@),
        0 <= row < 224 * renderer@.opts.scale,
        0 <= col < 240 * renderer@.opts.scale,
        0 <= channel < 3,
    ensures
        renderer.can_render(frame) <==> renderer@.fits(),
        ({
            let scale = renderer@.opts.scale as int;
            let id = decimal(renderer@.next_id as nat);
            let data = terminal.after(commands(out)).images[id].pixels();
            data[(row * (240 * scale) + col) * 3 + channel] == frame[(row / scale * 240 + col
                / scale) * 3 + channel]
        }),
{
    every_image_pixel_is_its_frame_pixel(renderer@, frame, out, terminal, row, col, channel);
}

} // verus!
