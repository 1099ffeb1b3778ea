//! FIGlet font identification.
//!
//! Loading and parsing of font files is input/output and is left to the
//! embedding program; the library only carries the chosen source along.

use vstd::prelude::*;

verus! {

/// The FIGlet fonts a banner can name without giving a file path.
#[derive(Debug, Clone, Copy, PartialEq, Eq, Structural, Hash)]
pub enum BuiltinFont {
    Standard,
    Slant,
    Small,
    Block,
    Larry3d,
    Lean,
}

/// Where the FIGlet font of a banner comes from.
#[derive(Debug, Clone)]
pub enum FontSource {
    /// A named standard font.
    Builtin(BuiltinFont),
    /// A `.flf` font file at the given path.
    File(String),
}

impl Default for FontSource {
    /// The default font source: the standard built-in font.
    fn default() -> (d: Self)
        ensures
            d == FontSource::Builtin(BuiltinFont::Standard),
    {
        FontSource::Builtin(BuiltinFont::Standard)
    }
}

} // verus!
