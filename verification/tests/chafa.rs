use nes_render::chafa::PixelMode;
use nes_render::chafa::SymbolChoice;
use nes_render::ChafaLibRenderer;
use nes_render::ChafaOpts;
use nes_render::ChafaRenderer;
use nes_render::RenderFrame;

fn opts(format: Option<&str>, symbols: Option<&str>, scale: Option<&str>) -> ChafaOpts {
    ChafaOpts {
        format: format.map(String::from),
        symbols: symbols.map(String::from),
        scale: scale.map(String::from),
    }
}

#[test]
fn chafa_builds_expected_argv() {
    let mut r = ChafaRenderer::new(ChafaOpts {
        format: Some("symbols".into()),
        symbols: Some("octant".into()),
        scale: Some("2".into()),
    });
    r.on_resize(160, 40);
    let argv = r.build_args();
    let joined = argv.join(" ");
    assert!(joined.contains("--polite on"), "always polite: {joined}");
    assert!(
        joined.contains("--probe off"),
        "probing must be off so terminal-query replies don't pollute stdin: {joined}"
    );
    assert!(
        joined.contains("--view-size 160x40"),
        "view-size from on_resize: {joined}"
    );
    assert!(joined.contains("--format symbols"), "format flag: {joined}");
    assert!(
        joined.contains("--symbols octant"),
        "symbols flag: {joined}"
    );
    assert!(joined.contains("--scale 2"), "scale flag: {joined}");
    assert_eq!(argv.last().map(String::as_str), Some("-"), "reads stdin");
}

#[test]
fn chafa_omits_unset_opts() {
    let r = ChafaRenderer::new(ChafaOpts::default());
    let joined = r.build_args().join(" ");
    assert!(!joined.contains("--format"));
    assert!(!joined.contains("--symbols"));
    assert!(!joined.contains("--scale"));
}

#[test]
fn chafa_arguments_are_in_order() {
    let r = ChafaRenderer::new(opts(Some("kitty"), None, Some("max")));
    assert_eq!(
        r.build_args(),
        [
            "--polite",
            "on",
            "--probe",
            "off",
            "--view-size",
            "80x24",
            "--format",
            "kitty",
            "--scale",
            "max",
            "-"
        ]
    );
}

#[test]
fn no_side_of_the_terminal_is_zero() {
    let mut r = ChafaRenderer::new(ChafaOpts::default());
    r.on_resize(0, 0);
    assert_eq!(r.build_args()[5], "1x1");
    r.on_resize(65535, 7);
    assert_eq!(r.build_args()[5], "65535x7");
}

#[test]
fn chafa_reads_a_png() {
    let mut pixels = vec![0u8; 161280];
    pixels[0] = 1;
    pixels[161279] = 2;
    let frame = RenderFrame::from_pixels_ntsc(pixels.clone()).unwrap();
    let file = ChafaRenderer::new(ChafaOpts::default()).input(&frame);
    let mut reader = png::Decoder::new(file.as_slice()).read_info().unwrap();
    let mut image = vec![0u8; reader.output_buffer_size()];
    let info = reader.next_frame(&mut image).unwrap();
    assert_eq!((info.width, info.height), (240, 224));
    assert_eq!(info.color_type, png::ColorType::Rgb);
    assert_eq!(info.bit_depth, png::BitDepth::Eight);
    assert_eq!(image, pixels);
}

#[test]
fn line_feeds_get_a_carriage_return() {
    let r = ChafaRenderer::new(ChafaOpts::default());
    assert_eq!(
        r.frame_bytes(Some(b"a\nbc\n\nd".to_vec())),
        b"\x1b[Ha\r\nbc\r\n\r\nd"
    );
    assert_eq!(r.frame_bytes(Some(b"\n".to_vec())), b"\x1b[H\r\n");
    assert_eq!(r.frame_bytes(Some(b"x\r\n".to_vec())), b"\x1b[Hx\r\r\n");
    assert_eq!(r.frame_bytes(Some(Vec::new())), b"\x1b[H");
}

#[test]
fn without_output_the_cursor_is_homed() {
    let r = ChafaRenderer::new(ChafaOpts::default());
    assert_eq!(r.frame_bytes(None), b"\x1b[H");
    let r = ChafaLibRenderer::new(ChafaOpts::default());
    assert_eq!(r.frame_bytes(None), b"\x1b[H");
}

#[test]
fn the_canvas_follows_the_options() {
    let mut r = ChafaLibRenderer::new(opts(Some("sixels"), Some("octant"), Some("2")));
    r.on_resize(120, 0);
    let plan = r.rebuild_canvas();
    assert!(matches!(plan.symbols, SymbolChoice::Selectors(s) if s == "none,octant"));
    assert_eq!((plan.cols, plan.rows), (120, 1));
    assert_eq!(plan.shrink.as_deref(), Some("2"));
    assert_eq!(plan.pixel_mode, PixelMode::Sixels);
    assert_eq!(r.frame_bytes(Some(b"q\n".to_vec())), b"\x1b[Hq\r\n");
}

#[test]
fn the_canvas_has_defaults() {
    let plan = ChafaLibRenderer::new(ChafaOpts::default()).rebuild_canvas();
    assert!(matches!(plan.symbols, SymbolChoice::All));
    assert_eq!((plan.cols, plan.rows), (80, 24));
    assert_eq!(plan.shrink, None);
    assert_eq!(plan.pixel_mode, PixelMode::Symbols);
}

#[test]
fn the_canvas_can_fill_the_view() {
    let plan = ChafaLibRenderer::new(opts(None, None, Some("max"))).rebuild_canvas();
    assert_eq!(plan.shrink, None);
}

#[test]
fn selectors_with_a_zero_byte_choose_nothing() {
    let plan = ChafaLibRenderer::new(opts(None, Some("a\0b"), None)).rebuild_canvas();
    assert!(matches!(plan.symbols, SymbolChoice::Nothing));
}

#[test]
fn each_format_has_its_pixel_mode() {
    for (format, mode) in [
        ("symbols", PixelMode::Symbols),
        ("sixels", PixelMode::Sixels),
        ("kitty", PixelMode::Kitty),
        ("iterm", PixelMode::Iterm2),
        ("iterm2", PixelMode::Iterm2),
        ("ITERM", PixelMode::Symbols),
        ("", PixelMode::Symbols),
    ] {
        let plan = ChafaLibRenderer::new(opts(Some(format), None, None)).rebuild_canvas();
        assert_eq!(plan.pixel_mode, mode, "{format}");
    }
}
