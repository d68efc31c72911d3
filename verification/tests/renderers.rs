use nes_render::ascii::level_of;
use nes_render::ascii::CHARSET;
use nes_render::halfblock::frame_marks;
use nes_render::halfblock::Mark;
use nes_render::upscale::nearest_neighbor_upscale_rgb;
use nes_render::Ansi;
use nes_render::AsciiRenderer;
use nes_render::ColorDepth;
use nes_render::HalfblockRenderer;
use nes_render::RenderFrame;
use nes_render::Renderer;
use nes_render::Rgb;
use nes_render::SixelRenderer;

/// A title screen: a flat sky over rows of tiles.
fn title_screen() -> RenderFrame {
    frame_of(|x, y| {
        if y < 64 {
            Rgb(92, 148, 252)
        } else {
            match (x / 2 + y / 8) % 4 {
                0 => Rgb(0, 0, 0),
                1 => Rgb(200, 76, 12),
                2 => Rgb(252, 188, 176),
                _ => Rgb(0, 168, 0),
            }
        }
    })
}

fn frame_of(color: impl Fn(usize, usize) -> Rgb) -> RenderFrame {
    let mut pixels = Vec::new();
    for y in 0..224 {
        for x in 0..240 {
            let rgb = color(x, y);
            pixels.extend_from_slice(&[rgb.0, rgb.1, rgb.2]);
        }
    }
    RenderFrame::from_pixels_ntsc(pixels).unwrap()
}

fn black() -> RenderFrame {
    frame_of(|_, _| Rgb(0, 0, 0))
}

#[test]
fn frame_sizes() {
    let frame888 = title_screen();

    let color = HalfblockRenderer::new(ColorDepth::Ansi256)
        .render(&frame888)
        .len();
    let ascii = AsciiRenderer::new().render(&frame888).len();

    assert!(153_000 <= color, "color too big: {color}kb"); // 1.5mb/s at 10
    assert!(40_000 <= ascii, "ascii too big: {ascii}kb"); // 0.8mb/s at 20
}

#[test]
fn frames_have_a_fixed_size() {
    assert!(RenderFrame::from_pixels_ntsc(vec![0; 161279]).is_none());
    assert!(RenderFrame::from_pixels_ntsc(vec![0; 161281]).is_none());
    assert!(RenderFrame::from_pixels_ntsc(Vec::new()).is_none());
    let frame = RenderFrame::from_pixels_ntsc(vec![7; 161280]).unwrap();
    assert_eq!(frame.pixels_ntsc(), vec![7; 161280]);
}

#[test]
fn pixels_are_found_by_row_and_column() {
    let frame = frame_of(|x, y| Rgb(x as u8, y as u8, 9));
    assert!(frame.pixel(0, 0) == Rgb(0, 0, 9));
    assert!(frame.pixel(223, 239) == Rgb(239, 223, 9));
    assert!(frame.pixel(5, 130) == Rgb(130, 5, 9));
}

#[test]
fn colors_are_packed() {
    assert_eq!(Rgb(0x12, 0x34, 0x56).as_u32(), 0x123456);
    assert_eq!(Rgb(255, 255, 255).as_u32(), 0xffffff);
    assert_eq!(Rgb(0, 0, 1).as_u32(), 1);
}

#[test]
fn escape_sequences_are_exact() {
    assert_eq!(Ansi::open_fg_true(Rgb(1, 20, 255)), "\x1b[38;2;1;20;255m");
    assert_eq!(Ansi::open_bg_true(Rgb(0, 0, 0)), "\x1b[48;2;0;0;0m");
    assert_eq!(Ansi::open_fg_index(7), "\x1b[38;5;7m");
    assert_eq!(Ansi::open_bg_index(231), "\x1b[48;5;231m");
    // Pure red is 196 in the color cube, white is 231.
    assert_eq!(Ansi::open_fg_256(Rgb(255, 0, 0)), "\x1b[38;5;196m");
    assert_eq!(Ansi::open_bg_256(Rgb(255, 255, 255)), "\x1b[48;5;231m");
}

#[test]
fn color_depth_selects_the_escape() {
    let rgb = Rgb(255, 0, 0);
    let indexed = HalfblockRenderer::new(ColorDepth::Ansi256);
    assert_eq!(indexed.open_fg(rgb), "\x1b[38;5;196m");
    assert_eq!(indexed.open_bg(rgb), "\x1b[48;5;196m");
    let exact = HalfblockRenderer::new(ColorDepth::Truecolor);
    assert_eq!(exact.open_fg(rgb), "\x1b[38;2;255;0;0m");
    assert_eq!(exact.open_bg(rgb), "\x1b[48;2;255;0;0m");
}

#[test]
fn a_flat_frame_selects_its_color_once() {
    let out = HalfblockRenderer::new(ColorDepth::Truecolor).render(&black());
    let row = format!("{}\r\n", "\u{2580}".repeat(240));
    let expected = format!(
        "\x1b[H\x1b[38;2;0;0;0m\x1b[48;2;0;0;0m{}",
        row.repeat(112)
    );
    assert_eq!(String::from_utf8(out).unwrap(), expected);
}

#[test]
fn a_cell_shows_two_pixels() {
    let frame = frame_of(|x, y| {
        if (x, y) == (1, 1) {
            Rgb(255, 0, 0)
        } else {
            Rgb(0, 0, 0)
        }
    });
    let out = HalfblockRenderer::new(ColorDepth::Ansi256).render(&frame);
    let text = String::from_utf8(out).unwrap();
    assert!(text.starts_with(
        "\x1b[H\x1b[38;5;16m\x1b[48;5;16m\u{2580}\x1b[48;5;196m\u{2580}\x1b[48;5;16m\u{2580}\u{2580}"
    ));
    let marks = frame_marks(&frame);
    assert!(matches!(marks[0], Mark::Fg(Rgb(0, 0, 0))));
    assert!(matches!(marks[1], Mark::Bg(Rgb(0, 0, 0))));
    assert!(matches!(marks[2], Mark::Block));
    assert!(matches!(marks[3], Mark::Bg(Rgb(255, 0, 0))));
    assert!(matches!(marks.last(), Some(Mark::Newline)));
}

#[test]
fn colors_carry_over_line_ends() {
    // The last cell of each row has the colors of the first of the next.
    let text = String::from_utf8(
        HalfblockRenderer::new(ColorDepth::Ansi256).render(&frame_of(|_, y| {
            if y < 2 {
                Rgb(0, 0, 0)
            } else {
                Rgb(255, 255, 255)
            }
        })),
    )
    .unwrap();
    assert_eq!(text.matches("\x1b[38;5;").count(), 2);
    assert_eq!(text.matches("\x1b[48;5;").count(), 2);
    assert!(text.contains("\u{2580}\r\n\x1b[38;5;231m\x1b[48;5;231m\u{2580}"));
}

#[test]
fn ascii_art_is_exact() {
    let frame = frame_of(|x, y| match (x, y) {
        (0, 0) => Rgb(255, 255, 255),
        (1, 0) => Rgb(254, 254, 254),
        (239, 223) => Rgb(128, 128, 128),
        _ => Rgb(0, 0, 0),
    });
    let text = String::from_utf8(AsciiRenderer::new().render(&frame)).unwrap();
    let mut lines = text.split("\r\n");
    assert_eq!(lines.next(), Some("\x1b[H"));
    let rows: Vec<&str> = lines.collect();
    assert_eq!(rows.len(), 224);
    // White, and what comes close to it, is past the end of the character set.
    assert_eq!(rows[0], format!("..{}", " ".repeat(238)));
    assert_eq!(level_of(Rgb(254, 254, 254)), 95);
    // 128 of 255 is 47.7 ninety-fifths.
    let middle = CHARSET.as_bytes()[48] as char;
    assert_eq!(rows[223], format!("{}{}", " ".repeat(239), middle));
    assert!(rows[1..223].iter().all(|row| *row == " ".repeat(240)));
    assert_eq!(
        AsciiRenderer::default().render(&black()),
        AsciiRenderer::new().render(&black())
    );
}

#[test]
fn levels_round_the_weighted_brightness() {
    let mut differ = 0;
    for r in 0..=255u8 {
        for g in 0..=255u8 {
            for b in 0..=255u8 {
                let brightness =
                    ((0.2126 * r as f64) + (0.7152 * g as f64) + (0.0722 * b as f64)) / 255.0;
                let level = ((95.0 * brightness) + 0.5).floor();
                if level_of(Rgb(r, g, b)) != level as usize {
                    differ += 1;
                }
            }
        }
    }
    assert_eq!(differ, 0);
}

#[test]
fn levels_grow_with_brightness() {
    assert_eq!(level_of(Rgb(0, 0, 0)), 0);
    assert_eq!(level_of(Rgb(255, 255, 255)), 95);
    assert_eq!(level_of(Rgb(255, 0, 0)), 20);
    assert_eq!(level_of(Rgb(0, 255, 0)), 68);
    assert_eq!(level_of(Rgb(0, 0, 255)), 7);
    // Half-way between 66 and 67, and rounded down.
    assert_eq!(level_of(Rgb(0x0d, 0xf4, 0x11)), 66);
    // Brighter, though its red is darker.
    assert!(level_of(Rgb(255, 0, 0)) <= level_of(Rgb(0, 255, 0)));
    for v in 1..=255u8 {
        assert!(level_of(Rgb(v, v, v)) >= level_of(Rgb(v - 1, v - 1, v - 1)));
    }
}

#[test]
fn upscaling_repeats_pixels() {
    let src = [1, 2, 3, 4, 5, 6];
    assert_eq!(nearest_neighbor_upscale_rgb(&src, 2, 1, 1), src);
    assert_eq!(
        nearest_neighbor_upscale_rgb(&src, 2, 1, 2),
        [
            1, 2, 3, 1, 2, 3, 4, 5, 6, 4, 5, 6, //
            1, 2, 3, 1, 2, 3, 4, 5, 6, 4, 5, 6,
        ]
    );
    assert_eq!(
        nearest_neighbor_upscale_rgb(&src, 1, 2, 2),
        [
            1, 2, 3, 1, 2, 3, //
            1, 2, 3, 1, 2, 3, //
            4, 5, 6, 4, 5, 6, //
            4, 5, 6, 4, 5, 6,
        ]
    );
    assert!(nearest_neighbor_upscale_rgb(&[], 0, 0, 5).is_empty());
}

#[test]
fn upscaling_ignores_what_follows_the_image() {
    assert_eq!(
        nearest_neighbor_upscale_rgb(&[1, 2, 3, 9, 9], 1, 1, 2),
        [1, 2, 3, 1, 2, 3, 1, 2, 3, 1, 2, 3]
    );
}

#[test]
fn sixel_scale_is_a_percentage() {
    assert_eq!(SixelRenderer::new().percent(), 300);
    assert_eq!(SixelRenderer::default().percent(), 300);
    assert_eq!(SixelRenderer::with_scale(1).percent(), 100);
    assert_eq!(SixelRenderer::with_scale(0).percent(), 100);
    assert_eq!(SixelRenderer::with_scale(u32::MAX).percent(), 429496729500);
}

#[test]
fn sixel_encodes_a_png() {
    let frame = title_screen();
    let file = SixelRenderer::new().input(&frame);
    let mut reader = png::Decoder::new(file.as_slice()).read_info().unwrap();
    let mut image = vec![0u8; reader.output_buffer_size()];
    let info = reader.next_frame(&mut image).unwrap();
    assert_eq!((info.width, info.height), (240, 224));
    assert_eq!(image, frame.pixels_ntsc());
}

#[test]
fn sixel_images_home_the_cursor() {
    let r = SixelRenderer::with_scale(2);
    assert_eq!(r.frame_bytes(b"\x1bPq"), b"\x1b[H\x1bPq");
    assert_eq!(r.frame_bytes(b""), b"\x1b[H");
}

#[test]
fn resizing_leaves_most_renderers_alone() {
    let frame = title_screen();
    let mut r = AsciiRenderer::new();
    let before = r.render(&frame);
    r.on_resize(1, 1);
    assert_eq!(r.render(&frame), before);
    let mut r = HalfblockRenderer::new(ColorDepth::Truecolor);
    let before = r.render(&frame);
    r.on_resize(1, 1);
    assert_eq!(r.render(&frame), before);
    let mut r = SixelRenderer::with_scale(2);
    r.on_resize(1, 1);
    assert_eq!(r.percent(), 200);
}

#[test]
fn exact_colors_can_be_read_back() {
    let frame = frame_of(|x, y| Rgb(x as u8, y as u8, (x ^ y) as u8));
    let out = HalfblockRenderer::new(ColorDepth::Truecolor).render(&frame);
    let text = String::from_utf8(out).unwrap();
    let mut pixels = vec![0u8; 161280];
    let (mut fg, mut bg) = ([0u8; 3], [0u8; 3]);
    let (mut row, mut col) = (0, 0);
    let mut rest = text.strip_prefix("\x1b[H").unwrap();
    while !rest.is_empty() {
        if let Some(tail) = rest.strip_prefix("\x1b[") {
            let (params, tail) = tail.split_once('m').unwrap();
            let list: Vec<u8> = params.split(';').map(|p| p.parse().unwrap()).collect();
            assert_eq!(list[1], 2);
            let color = [list[2], list[3], list[4]];
            match list[0] {
                38 => fg = color,
                _ => bg = color,
            }
            rest = tail;
        } else if let Some(tail) = rest.strip_prefix("\r\n") {
            assert_eq!(col, 240);
            row += 1;
            col = 0;
            rest = tail;
        } else {
            rest = rest.strip_prefix('\u{2580}').unwrap();
            let upper = (2 * row * 240 + col) * 3;
            let lower = upper + 240 * 3;
            pixels[upper..upper + 3].copy_from_slice(&fg);
            pixels[lower..lower + 3].copy_from_slice(&bg);
            col += 1;
        }
    }
    assert_eq!(row, 112);
    assert_eq!(pixels, frame.pixels_ntsc());
}
