//! Encodings of binary data (base64, zlib, PNG), and checksums.

use std::io::Write;

use base64::engine::general_purpose::STANDARD;
use base64::Engine;
use vstd::prelude::*;

use crate::frame::RenderFrame;
use crate::frame::NTSC_HEIGHT;
use crate::frame::NTSC_WIDTH;

verus! {

/// The number of base64 characters for `n` bytes.
pub open spec fn base64_len(n: nat) -> nat {
    (n + 2) / 3 * 4
}

/// The character of the standard base64 alphabet for the six-bit value `v`.
pub open spec fn base64_symbol(v: int) -> char {
    if v < 26 {
        ('A' as int + v) as char
    } else if v < 52 {
        ('a' as int + (v - 26)) as char
    } else if v < 62 {
        ('0' as int + (v - 52)) as char
    } else if v == 62 {
        '+'
    } else {
        '/'
    }
}

/// Byte `i`, or zero behind the end.
pub open spec fn byte_or_zero(bytes: Seq<u8>, i: int) -> int {
    if i < bytes.len() {
        bytes[i] as int
    } else {
        0
    }
}

/// The three bytes from `i` on as one big-endian 24-bit number.
pub open spec fn triple(bytes: Seq<u8>, i: int) -> int {
    byte_or_zero(bytes, i) * 0x10000 + byte_or_zero(bytes, i + 1) * 0x100 + byte_or_zero(
        bytes,
        i + 2,
    )
}

/// Six-bit digit `j` of a 24-bit number, the highest first.
pub open spec fn sextet(word: int, j: int) -> int {
    if j == 0 {
        word / 0x40000 % 64
    } else if j == 1 {
        word / 0x1000 % 64
    } else if j == 2 {
        word / 0x40 % 64
    } else {
        word % 64
    }
}

/// Character `k` of the base64 text for `bytes`. Each four characters stand for
/// three bytes; where the last of these are missing, the characters that would
/// depend on the missing bytes alone are `=`.
pub open spec fn base64_char(bytes: Seq<u8>, k: int) -> char {
    let first = k / 4 * 3;
    if first + k % 4 > bytes.len() {
        '='
    } else {
        base64_symbol(sextet(triple(bytes, first), k % 4))
    }
}

/// `bytes` in base64, with the standard alphabet and padding.
pub open spec fn base64_text(bytes: Seq<u8>) -> Seq<char> {
    Seq::new(base64_len(bytes.len()), |k: int| base64_char(bytes, k))
}

/// The six-bit value of a base64 character; zero for padding.
pub open spec fn base64_value(c: char) -> int {
    if 'A' <= c <= 'Z' {
        c as int - 'A' as int
    } else if 'a' <= c <= 'z' {
        c as int - 'a' as int + 26
    } else if '0' <= c <= '9' {
        c as int - '0' as int + 52
    } else if c == '+' {
        62
    } else if c == '/' {
        63
    } else {
        0
    }
}

/// The 24-bit number that four base64 characters from `k` on stand for.
pub open spec fn quad(text: Seq<char>, k: int) -> int {
    base64_value(text[k]) * 0x40000 + base64_value(text[k + 1]) * 0x1000 + base64_value(text[k + 2])
        * 0x40 + base64_value(text[k + 3])
}

/// The number of bytes that padded base64 text stands for.
pub open spec fn base64_decoded_len(text: Seq<char>) -> int {
    let n = text.len() as int;
    if n == 0 {
        0
    } else if text[n - 2] == '=' {
        n / 4 * 3 - 2
    } else if text[n - 1] == '=' {
        n / 4 * 3 - 1
    } else {
        n / 4 * 3
    }
}

/// Byte `j` of a 24-bit number, the highest first.
pub open spec fn octet(word: int, j: int) -> u8 {
    if j == 0 {
        (word / 0x10000 % 256) as u8
    } else if j == 1 {
        (word / 0x100 % 256) as u8
    } else {
        (word % 256) as u8
    }
}

/// What a reader of base64 text gets out of it.
pub open spec fn base64_decode(text: Seq<char>) -> Seq<u8> {
    Seq::new(
        base64_decoded_len(text) as nat,
        |i: int| octet(quad(text, i / 3 * 4), i % 3),
    )
}

proof fn lemma_symbol_value(v: int)
    requires
        0 <= v < 64,
    ensures
        base64_value(base64_symbol(v)) == v,
        base64_symbol(v) != '=',
{
}

/// A 24-bit number is made of its four six-bit digits.
proof fn lemma_sextets(word: int)
    requires
        0 <= word < 0x1000000,
    ensures
        sextet(word, 0) * 0x40000 + sextet(word, 1) * 0x1000 + sextet(word, 2) * 0x40 + sextet(
            word,
            3,
        ) == word,
        forall|j: int| 0 <= #[trigger] sextet(word, j) < 64,
{
}

/// The four characters for the bytes from `first` on stand for those bytes.
proof fn lemma_quad_is_triple(bytes: Seq<u8>, first: int)
    requires
        0 <= first < bytes.len(),
        first % 3 == 0,
    ensures
        quad(base64_text(bytes), first / 3 * 4) == triple(bytes, first),
{
    let k = first / 3 * 4;
    let word = triple(bytes, first);
    let text = base64_text(bytes);
    lemma_sextets(word);
    assert(k + 3 < text.len());
    assert forall|j: int| 0 <= j < 4 implies base64_value(#[trigger] text[k + j]) == sextet(
        word,
        j,
    ) by {
        assert((k + j) / 4 * 3 == first && (k + j) % 4 == j);
        lemma_symbol_value(sextet(word, j));
    }
    assert(text[k] == text[k + 0]);
}

proof fn lemma_decoded_len(bytes: Seq<u8>)
    ensures
        base64_decoded_len(base64_text(bytes)) == bytes.len(),
{
    let text = base64_text(bytes);
    let n = text.len() as int;
    if bytes.len() > 0 {
        let first = (n / 4 - 1) * 3;
        let word = triple(bytes, first);
        assert(0 <= first < bytes.len() <= first + 3);
        lemma_sextets(word);
        lemma_symbol_value(sextet(word, 2));
        lemma_symbol_value(sextet(word, 3));
        assert((n - 2) / 4 * 3 == first && (n - 2) % 4 == 2);
        assert((n - 1) / 4 * 3 == first && (n - 1) % 4 == 3);
        assert(text[n - 2] == '=' <==> first + 2 > bytes.len());
        assert(text[n - 1] == '=' <==> first + 3 > bytes.len());
    }
}

proof fn lemma_octet_of_triple(bytes: Seq<u8>, i: int)
    requires
        0 <= i < bytes.len(),
    ensures
        octet(triple(bytes, i / 3 * 3), i % 3) == bytes[i],
{
    let first = i / 3 * 3;
    let (a, b, c) = (
        byte_or_zero(bytes, first),
        byte_or_zero(bytes, first + 1),
        byte_or_zero(bytes, first + 2),
    );
    let word = a * 0x10000 + b * 0x100 + c;
    assert(word / 0x10000 % 256 == a && word / 0x100 % 256 == b && word % 256 == c);
}

/// Decoding base64 text gives back the bytes that were encoded.
pub proof fn base64_decodes_to_what_was_encoded(bytes: Seq<u8>)
    ensures
        base64_decode(base64_text(bytes)) == bytes,
{
    let text = base64_text(bytes);
    let decoded = base64_decode(text);
    lemma_decoded_len(bytes);
    assert forall|i: int| 0 <= i < bytes.len() implies #[trigger] decoded[i] == bytes[i] by {
        let first = i / 3 * 3;
        assert(first % 3 == 0 && first / 3 == i / 3);
        lemma_quad_is_triple(bytes, first);
        lemma_octet_of_triple(bytes, i);
    }
    assert(decoded =~= bytes);
}

/// Calls `base64::Engine::encode` with the engine `STANDARD`: RFC 4648 base64
/// with padding. It panics where the text would not fit in memory.
#[verifier::external_body]
pub(crate) fn base64_encode(bytes: &[u8]) -> (text: String)
    requires
        base64_len(bytes@.len()) <= isize::MAX,
    ensures
        text@ == base64_text(bytes@),
{
    STANDARD.encode(bytes)
}

/// What `flate2::read::ZlibDecoder` reads out of a zlib stream.
pub uninterp spec fn zlib_inflated(stream: Seq<u8>) -> Seq<u8>;

/// RFC 1950 zlib-deflate `src`. Used to feed kitty's `o=z` decompression. Fast
/// compression level: encode speed matters more than ratio at 60 fps, and NES
/// content is so flat that even the fast preset gives big savings.
///
/// Runs a `flate2::write::ZlibEncoder` into a `Vec`, whose `Write` never fails.
/// The stream is never empty, and gives the bytes back when it is inflated. Which
/// of the streams that do so it is rests on the buffers that the encoder was given
/// room for, and is not claimed.
#[verifier::external_body]
pub(crate) fn deflate(src: &[u8]) -> (stream: Vec<u8>)
    ensures
        stream@.len() > 0,
        zlib_inflated(stream@) == src@,
{
    let mut enc = flate2::write::ZlibEncoder::new(Vec::new(), flate2::Compression::fast());
    enc.write_all(src).expect("zlib write to Vec cannot fail");
    enc.finish().expect("zlib finish to Vec cannot fail")
}

/// The PNG file that `png` makes of `height` rows of `width` RGB888 pixels.
pub uninterp spec fn png_rgb8(pixels: Seq<u8>, width: u32, height: u32) -> Seq<u8>;

/// Runs a `png::Encoder` for 8-bit RGB, with the crate's default compression and
/// filter, into a `Vec`, whose `Write` never fails. It reports an error only for
/// an empty picture, a depth that does not go with the colour type, or pixels of
/// another number than the size calls for. What comes out depends on the
/// arguments alone. The encoder counts the zeros of a row in 32 bits, so no row
/// may be longer than that.
#[verifier::external_body]
pub(crate) fn encode_png(pixels: &[u8], width: u32, height: u32) -> (file: Vec<u8>)
    requires
        width >= 1,
        height >= 1,
        width * 3 < 0x1_0000_0000,
        pixels@.len() == width * height * 3,
    ensures
        file@ == png_rgb8(pixels@, width, height),
{
    let mut file: Vec<u8> = Vec::new();
    let mut enc = png::Encoder::new(&mut file, width, height);
    enc.set_color(png::ColorType::Rgb);
    enc.set_depth(png::BitDepth::Eight);
    let mut writer = enc.write_header().expect("PNG header to Vec cannot fail");
    writer.write_image_data(pixels).expect("PNG data to Vec cannot fail");
    writer.finish().expect("PNG end to Vec cannot fail");
    file
}

/// The PNG file of a frame, for programs that read their picture from one.
pub fn frame_png(frame: &RenderFrame) -> (file: Vec<u8>)
    ensures
        file@ == png_rgb8(frame@, NTSC_WIDTH as u32, NTSC_HEIGHT as u32),
{
    encode_png(frame.pixels_ntsc(), NTSC_WIDTH as u32, NTSC_HEIGHT as u32)
}

/// A CRC-32 register after `n` more bits that are zero. The polynomial is that of
/// IEEE 802.3, its lowest power in the highest bit.
pub open spec fn crc32_shifted(register: u32, n: nat) -> u32
    decreases n,
{
    if n == 0 {
        register
    } else {
        let before = crc32_shifted(register, (n - 1) as nat);
        if before & 1 == 1 {
            (before >> 1u32) ^ 0xedb8_8320
        } else {
            before >> 1u32
        }
    }
}

/// The CRC-32 register after these bytes. All its bits are set at first.
pub open spec fn crc32_register(bytes: Seq<u8>) -> u32
    decreases bytes.len(),
{
    if bytes.len() == 0 {
        0xffff_ffff
    } else {
        crc32_shifted(crc32_register(bytes.drop_last()) ^ (bytes.last() as u32), 8)
    }
}

/// The CRC-32 (IEEE) checksum of `bytes`.
pub open spec fn crc32(bytes: Seq<u8>) -> u32 {
    !crc32_register(bytes)
}

/// Calls `crc32fast::hash`: the CRC-32 (IEEE) checksum of the bytes.
#[verifier::external_body]
pub(crate) fn crc32_of(bytes: &[u8]) -> (sum: u32)
    ensures
        sum == crc32(bytes@),
{
    crc32fast::hash(bytes)
}

} // verus!
