//! Banner content and FIGlet generation options.

use vstd::prelude::*;

verus! {

/// The lines of a banner, in top-to-bottom visual order.
pub type BannerContent = Vec<String>;

/// Options for FIGlet text generation.  The desired width is informative:
/// the generated layout depends on the font itself.
#[derive(Debug, Clone, Default)]
pub struct FigletOptions {
    /// Desired maximum width in columns, if any.
    pub width: Option<u16>,
}

} // verus!
