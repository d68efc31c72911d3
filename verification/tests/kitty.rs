use std::io::Read;

use base64::Engine;
use nes_render::kitty::CHUNK;
use nes_render::KittyOpts;
use nes_render::KittyRenderer;
use nes_render::RenderFrame;
use nes_render::Renderer;

/// A title screen: a flat sky over rows of tiles.
fn fixture_frame() -> RenderFrame {
    let mut pixels = Vec::new();
    for y in 0..224usize {
        for x in 0..240usize {
            let rgb: [u8; 3] = if y < 64 {
                [92, 148, 252]
            } else {
                match (x / 2 + y / 8) % 4 {
                    0 => [0, 0, 0],
                    1 => [200, 76, 12],
                    2 => [252, 188, 176],
                    _ => [0, 168, 0],
                }
            };
            pixels.extend_from_slice(&rgb);
        }
    }
    RenderFrame::from_pixels_ntsc(pixels).unwrap()
}

/// The control keys and payload of each graphics command.
fn packets(out: &[u8]) -> Vec<(String, String)> {
    let text = std::str::from_utf8(out).unwrap();
    let body = text.strip_prefix("\x1b[H").unwrap();
    body.split("\x1b_G")
        .skip(1)
        .map(|packet| {
            let (control, rest) = packet.split_once(';').unwrap();
            let payload = rest.strip_suffix("\x1b\\").unwrap();
            (control.to_string(), payload.to_string())
        })
        .collect()
}

fn decoded(packets: &[(String, String)]) -> Vec<u8> {
    let mut encoded = String::new();
    for (control, payload) in packets {
        if !control.starts_with("a=d") {
            encoded.push_str(payload);
        }
    }
    base64::engine::general_purpose::STANDARD
        .decode(encoded)
        .unwrap()
}

#[test]
fn kitty_zlib_emits_o_z_and_shrinks_payload() {
    let frame = fixture_frame();
    let plain = KittyRenderer::with_scale(3).render(&frame).len();
    let zipped = KittyRenderer::with_opts(KittyOpts {
        scale: 3,
        zlib: true,
    })
    .render(&frame)
    .len();

    let bytes = KittyRenderer::with_opts(KittyOpts {
        scale: 1,
        zlib: true,
    })
    .render(&frame);
    let s = std::str::from_utf8(&bytes).unwrap();
    assert!(s.contains(",o=z,"), "first chunk header must advertise o=z");

    // The frame is mostly flat color: easy 2x or better at scale 3, and the
    // compressed payload is fully consumed by the encoded image.
    assert!(
        zipped * 2 < plain,
        "zlib must roughly halve the payload (plain={plain}, zipped={zipped})"
    );
}

#[test]
fn kitty_alternates_ids_and_deletes_previous() {
    let frame = fixture_frame();
    let mut r = KittyRenderer::new();

    let f1 = r.render(&frame);
    // First frame: new image at id=1, no previous to delete.
    let f1s = std::str::from_utf8(&f1).unwrap();
    assert!(f1s.contains(",i=1,"), "first frame should transmit at id=1");
    assert!(
        !f1s.contains("a=d,"),
        "first frame must not delete (nothing yet)"
    );

    let f2 = r.render(&frame);
    // Second frame: new image at id=2, *then* delete id=1.
    let f2s = std::str::from_utf8(&f2).unwrap();
    assert!(
        f2s.contains(",i=2,"),
        "second frame should transmit at id=2"
    );
    let place = f2s.find(",i=2,").unwrap();
    let delete = f2s
        .find("a=d,d=I,i=1")
        .expect("second frame should delete id=1");
    assert!(
        delete > place,
        "delete must come after the new placement so there's no blank window"
    );

    let f3 = r.render(&frame);
    // Third frame: id=1 again (alternation), delete id=2.
    let f3s = std::str::from_utf8(&f3).unwrap();
    assert!(f3s.contains(",i=1,"));
    assert!(f3s.contains("a=d,d=I,i=2"));
}

#[test]
fn kitty_scale_grows_payload_quadratically() {
    let frame = fixture_frame();
    let small = KittyRenderer::with_scale(1).render(&frame).len();
    let big = KittyRenderer::with_scale(3).render(&frame).len();
    // 3x scale -> ~9x pixel area, so the (mostly base64) payload should grow
    // by roughly the same factor. Allow generous slack for framing overhead.
    assert!(
        big > small * 7 && big < small * 11,
        "scale 3 payload {big} not ~9x of scale 1 {small}"
    );
}

#[test]
fn kitty_is_well_formed() {
    let frame888 = fixture_frame();
    let out = KittyRenderer::new().render(&frame888);

    // Cursor-home prefix, at least one graphics escape, terminated correctly.
    assert!(out.starts_with(b"\x1b[H"));
    assert!(out.windows(4).any(|w| w == b"\x1b_Ga"));
    assert!(out.ends_with(b"\x1b\\"));
    // Exactly one terminator per chunk; first chunk carries the control keys.
    let starts = out.windows(3).filter(|w| *w == b"\x1b_G").count();
    let ends = out.windows(2).filter(|w| *w == b"\x1b\\").count();
    assert_eq!(starts, ends);
}

#[test]
fn a_terminal_reads_the_frame_back() {
    let frame = fixture_frame();
    let packets = packets(&KittyRenderer::new().render(&frame));
    // 161280 bytes are 215040 characters of base64: 52 full chunks and a half.
    assert_eq!(packets.len(), 53);
    assert_eq!(packets[0].0, "a=T,f=24,s=240,v=224,i=1,q=2,m=1");
    for (control, payload) in &packets[1..52] {
        assert_eq!(control, "m=1");
        assert_eq!(payload.len(), CHUNK);
    }
    assert_eq!(packets[52].0, "m=0");
    assert_eq!(packets[52].1.len(), 2048);
    assert_eq!(decoded(&packets), frame.pixels_ntsc());
}

#[test]
fn a_terminal_inflates_the_frame() {
    let frame = fixture_frame();
    let mut r = KittyRenderer::with_opts(KittyOpts {
        scale: 1,
        zlib: true,
    });
    let packets = packets(&r.render(&frame));
    assert!(packets[0]
        .0
        .starts_with("a=T,f=24,s=240,v=224,i=1,q=2,o=z,m="));
    let stream = decoded(&packets);
    assert_ne!(stream, frame.pixels_ntsc());
    let mut inflated = Vec::new();
    flate2::read::ZlibDecoder::new(stream.as_slice())
        .read_to_end(&mut inflated)
        .unwrap();
    assert_eq!(inflated, frame.pixels_ntsc());
}

#[test]
fn scaled_images_say_their_size() {
    let frame = fixture_frame();
    let packets = packets(&KittyRenderer::with_scale(2).render(&frame));
    assert_eq!(packets[0].0, "a=T,f=24,s=480,v=448,i=1,q=2,m=1");
    let pixels = decoded(&packets);
    assert_eq!(pixels.len(), 4 * 161280);
    // Pixel (3, 131) of the image is pixel (1, 65) of the frame.
    let at = (131 * 480 + 3) * 3;
    let from = (65 * 240 + 1) * 3;
    assert_eq!(pixels[at..at + 3], frame.pixels_ntsc()[from..from + 3]);
}

#[test]
fn a_scale_of_zero_is_taken_as_one() {
    let frame = fixture_frame();
    let zero = KittyRenderer::with_scale(0).render(&frame);
    assert_eq!(zero, KittyRenderer::new().render(&frame));
    assert_eq!(zero, KittyRenderer::default().render(&frame));
    let opts = KittyOpts {
        scale: 0,
        zlib: false,
    };
    assert_eq!(zero, KittyRenderer::with_opts(opts).render(&frame));
}

#[test]
fn kitty_options_have_defaults() {
    let opts = KittyOpts::default();
    assert_eq!(opts.scale, 1);
    assert!(!opts.zlib);
}

#[test]
fn small_payloads_are_transmitted_exactly() {
    let mut r = KittyRenderer::new();
    assert_eq!(
        r.transmit(b"Hi").as_slice(),
        b"\x1b[H\x1b_Ga=T,f=24,s=240,v=224,i=1,q=2,m=0;SGk=\x1b\\"
    );
    assert_eq!(
        r.transmit(b"NES").as_slice(),
        b"\x1b[H\x1b_Ga=T,f=24,s=240,v=224,i=2,q=2,m=0;TkVT\x1b\\\x1b_Ga=d,d=I,i=1,q=2;\x1b\\"
    );
    assert_eq!(
        r.transmit(b"").as_slice(),
        b"\x1b[H\x1b_Ga=d,d=I,i=2,q=2;\x1b\\"
    );
}

#[test]
fn payloads_are_split_at_the_chunk_size() {
    // 3072 bytes are 4096 characters of base64.
    let one = packets(&KittyRenderer::new().transmit(&[0; 3072]));
    assert_eq!(one.len(), 1);
    assert_eq!(one[0].1.len(), 4096);
    let two = packets(&KittyRenderer::new().transmit(&[0; 3073]));
    assert_eq!(two.len(), 2);
    assert_eq!(two[0].1.len(), 4096);
    assert_eq!(two[1].0, "m=0");
    assert_eq!(two[1].1, "AA==");
}

#[test]
fn an_image_that_fits_no_memory_is_refused() {
    let frame = fixture_frame();
    let mut r = KittyRenderer::with_scale(u32::MAX);
    assert_eq!(r.try_render(&frame), None);

    let mut r = KittyRenderer::new();
    let expected = KittyRenderer::new().render(&frame);
    assert_eq!(r.try_render(&frame), Some(expected));
    // The id has moved on.
    let second = packets(&r.try_render(&frame).unwrap());
    assert!(second[0].0.contains(",i=2,"));
}

#[test]
fn a_payload_is_what_is_transmitted() {
    let frame = fixture_frame();
    let mut r = KittyRenderer::with_scale(2);
    let payload = r.try_payload(&frame).unwrap();
    assert_eq!(payload.len(), 4 * 161280);
    assert_eq!(
        r.transmit(&payload),
        KittyRenderer::with_scale(2).render(&frame)
    );
    assert_eq!(KittyRenderer::with_scale(u32::MAX).try_payload(&frame), None);
}

#[test]
fn the_screen_is_never_blank() {
    let frame = fixture_frame();
    let mut r = KittyRenderer::new();
    // What a terminal has on screen, by id.
    let mut shown: Vec<String> = Vec::new();
    let mut loading = String::new();
    for round in 0..4 {
        for (control, _) in packets(&r.render(&frame)) {
            let value = |name: &str| {
                control
                    .split(',')
                    .find_map(|entry| entry.strip_prefix(name))
                    .map(String::from)
            };
            if value("a=").as_deref() == Some("d") {
                let id = value("i=").unwrap();
                shown.retain(|s| *s != id);
            } else {
                if value("a=").is_some() {
                    loading = value("i=").unwrap();
                }
                if value("m=").as_deref() == Some("0") {
                    shown.push(loading.clone());
                }
            }
            assert!(round == 0 || !shown.is_empty());
        }
        assert_eq!(shown, [if round % 2 == 0 { "1" } else { "2" }]);
    }
}

#[test]
fn resizing_keeps_the_image_ids() {
    let frame = fixture_frame();
    let (mut a, mut b) = (KittyRenderer::new(), KittyRenderer::new());
    for _ in 0..3 {
        assert_eq!(a.render(&frame), b.render(&frame));
        a.on_resize(7, 9);
    }
}

#[test]
fn pieces_of_a_payload_are_one_base64_text() {
    for len in [1usize, 3071, 3072, 3073, 6144, 7000] {
        let payload: Vec<u8> = (0..len).map(|i| (i * 31 % 251) as u8).collect();
        let sent = packets(&KittyRenderer::new().transmit(&payload));
        let text: String = sent.iter().map(|(_, part)| part.as_str()).collect();
        let expected = base64::engine::general_purpose::STANDARD.encode(&payload);
        assert_eq!(text, expected);
    }
}

#[test]
fn repeated_frames_repeat() {
    let frame = fixture_frame();
    let mut r = KittyRenderer::with_scale(2);
    let sent: Vec<Vec<u8>> = (0..5).map(|_| r.render(&frame)).collect();
    // The first frame has nothing to delete.
    assert_ne!(sent[0], sent[2]);
    assert_eq!(sent[1], sent[3]);
    assert_eq!(sent[2], sent[4]);
    for (i, out) in sent.iter().enumerate() {
        let list = packets(out);
        let id = if i % 2 == 0 { ",i=1," } else { ",i=2," };
        assert!(list[0].0.contains(id));
        let deletions = list.iter().filter(|(c, _)| c.starts_with("a=d")).count();
        assert_eq!(deletions, if i == 0 { 0 } else { 1 });
        let old = if i % 2 == 0 {
            "a=d,d=I,i=2,q=2"
        } else {
            "a=d,d=I,i=1,q=2"
        };
        assert_eq!(list[list.len() - 1].0 == old, i > 0);
    }
}
