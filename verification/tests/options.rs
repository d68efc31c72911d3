use nes_render::create;
use nes_render::options::kitty_opts_for;
use nes_render::options::parse_kitty_opts;
use nes_render::options::Graphics;
use nes_render::options::OptionsError;
use nes_render::options::RendererConfig;
use nes_render::ColorDepth;
use nes_render::KittyOpts;
use nes_render::RenderMode;

fn zlib(s: &str) -> bool {
    let opts = parse_kitty_opts(s).unwrap();
    assert_eq!(opts.scale, 1);
    opts.zlib
}

fn unknown(s: &str) -> String {
    match parse_kitty_opts(s) {
        Err(OptionsError::UnknownEntry(entry)) => entry,
        other => panic!("{other:?}"),
    }
}

#[test]
fn each_mode_has_its_renderer() {
    assert_eq!(
        create(RenderMode::Halfblock),
        RendererConfig::Halfblock(ColorDepth::Ansi256)
    );
    assert_eq!(create(RenderMode::Ascii), RendererConfig::Ascii);
    assert_eq!(create(RenderMode::Sixel), RendererConfig::Sixel(3));
    assert_eq!(
        create(RenderMode::Kitty),
        RendererConfig::Kitty(KittyOpts {
            scale: 1,
            zlib: false
        })
    );
}

#[test]
fn graphics_take_the_scale_of_the_command_line() {
    let opts = KittyOpts {
        scale: 1,
        zlib: true,
    };
    assert_eq!(Graphics::Sixel.renderer(4, opts), RendererConfig::Sixel(4));
    assert_eq!(
        Graphics::Kitty.renderer(4, opts),
        RendererConfig::Kitty(KittyOpts {
            scale: 4,
            zlib: true
        })
    );
    assert_eq!(
        Graphics::Halfblock.renderer(4, opts),
        RendererConfig::Halfblock(ColorDepth::Truecolor)
    );
}

#[test]
fn the_frame_rate_is_capped() {
    assert_eq!(Graphics::Sixel.default_fps(), 15);
    assert_eq!(Graphics::Kitty.default_fps(), 60);
    assert_eq!(Graphics::Halfblock.default_fps(), 60);
    assert_eq!(Graphics::Sixel.fps(None), 15);
    assert_eq!(Graphics::Kitty.fps(None), 60);
    assert_eq!(Graphics::Sixel.fps(Some(30)), 30);
    assert_eq!(Graphics::Kitty.fps(Some(0)), 0);
}

#[test]
fn kitty_options_are_parsed() {
    assert!(!zlib(""));
    assert!(!zlib(" , ,"));
    assert!(zlib("o=z"));
    assert!(zlib(" o = z "));
    assert!(zlib("o=z,o=z"));
    assert!(zlib(",\t\u{3000}o=z\u{2003},"));
}

#[test]
fn unknown_kitty_options_are_named() {
    assert_eq!(unknown("o"), "o");
    assert_eq!(unknown("o=x"), "o=x");
    assert_eq!(unknown("o=z, scale = 3 ,q=1"), "scale = 3");
    assert_eq!(unknown("O=z"), "O=z");
    assert_eq!(unknown("o=z=z"), "o=z=z");
    assert_eq!(unknown("="), "=");
    assert_eq!(unknown("\u{e9}=z,o=z"), "\u{e9}=z");
}

#[test]
fn kitty_options_are_for_kitty_only() {
    assert_eq!(
        kitty_opts_for(Graphics::Kitty, "o=z"),
        Ok(KittyOpts {
            scale: 1,
            zlib: true
        })
    );
    assert_eq!(
        kitty_opts_for(Graphics::Sixel, "o=z"),
        Err(OptionsError::KittyOnly)
    );
    assert_eq!(
        kitty_opts_for(Graphics::Halfblock, " "),
        Err(OptionsError::KittyOnly)
    );
    assert_eq!(
        kitty_opts_for(Graphics::Sixel, ""),
        Ok(KittyOpts {
            scale: 1,
            zlib: false
        })
    );
    // A list that is not understood is reported first.
    assert_eq!(
        kitty_opts_for(Graphics::Sixel, "x"),
        Err(OptionsError::UnknownEntry("x".to_string()))
    );
}

#[test]
fn white_space_is_that_of_unicode() {
    for c in '\0'..=char::MAX {
        if c == ',' {
            continue;
        }
        let blank = parse_kitty_opts(&c.to_string()).is_ok();
        assert_eq!(blank, c.is_whitespace(), "{c:?}");
    }
}
