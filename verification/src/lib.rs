//! Terminal renderers for the NES 256x240 frame buffer, and the decisions of
//! the hosts that show it.
//!
//! Each [`Renderer`] turns a [`RenderFrame`] into a `Vec<u8>` of bytes ready to
//! be written to a terminal: ANSI escape sequences, a Sixel image, or a Kitty
//! graphics-protocol image. The output always begins by homing the cursor so
//! successive frames overdraw in place.

pub mod ansi;
pub mod ascii;
pub mod audio;
pub mod bytes;
pub mod chafa;
pub mod codec;
pub mod frame;
pub mod halfblock;
pub mod halfblock_screen;
pub mod joypad;
pub mod kitty;
pub mod kitty_laws;
pub mod kitty_terminal;
pub mod options;
pub mod renderer;
pub mod sdl;
pub mod sixel;
pub mod text;
pub mod tui;
pub mod upscale;

pub use ansi::Ansi;
pub use ascii::AsciiRenderer;
pub use chafa::ChafaLibRenderer;
pub use chafa::ChafaOpts;
pub use chafa::ChafaRenderer;
pub use frame::RenderFrame;
pub use frame::Rgb;
pub use halfblock::ColorDepth;
pub use halfblock::HalfblockRenderer;
pub use kitty::KittyOpts;
pub use kitty::KittyRenderer;
pub use options::create;
pub use options::RenderMode;
pub use renderer::Renderer;
pub use sdl::SdlHostPlatform;
pub use sixel::SixelRenderer;
pub use tui::TuiHost;
