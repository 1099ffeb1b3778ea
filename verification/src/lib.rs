//! Terminal banner rendering: a display-width measurer aware of ANSI escape
//! sequences and wide characters, a terminal-state guard with exactly-once
//! restoration, a static line renderer, and a frame-animation engine.

pub mod animation;
pub mod banner;
pub mod error;
pub mod fonts;
pub mod presets;
pub mod renderer;
pub mod style;
pub mod terminal;
pub mod utils;

pub use animation::{Animation, Frame};
pub use banner::{BannerContent, FigletOptions};
pub use error::BannerError;
pub use fonts::{BuiltinFont, FontSource};
pub use style::{rgb, Attribute, Color, Style};
