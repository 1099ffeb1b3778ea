//! Error type for banner construction and display.

use vstd::prelude::*;
use vstd::string::StringExecFns;

verus! {

/// Errors that can occur while a banner is built or displayed.
#[derive(Debug, Clone)]
pub enum BannerError {
    /// Input/output or terminal-control failure.
    Io(String),
    /// A FIGlet font file could not be loaded or parsed.
    FontLoad(String),
    /// FIGlet generation failed for the given text.
    FigletGeneration(String),
    /// The configuration of an animation is invalid.
    InvalidAnimation(String),
    /// The terminal's size could not be determined.
    TerminalSize(String),
    /// An internal invariant was violated; indicates a defect.
    Internal(String),
}

/// The description of `e`: a fixed text for its kind, then its detail.
pub open spec fn message_spec(e: &BannerError) -> Seq<char> {
    match e {
        BannerError::Io(s) => "input/output or terminal error: "@ + s@,
        BannerError::FontLoad(s) => "could not load or parse the FIGlet font: "@ + s@,
        BannerError::FigletGeneration(s) => "could not generate the FIGlet art: "@ + s@,
        BannerError::InvalidAnimation(s) => "invalid animation configuration: "@ + s@,
        BannerError::TerminalSize(s) => "could not determine the terminal size: "@ + s@,
        BannerError::Internal(s) => "internal library error: "@ + s@,
    }
}

impl BannerError {
    /// A human-readable description of the error.
    pub fn message(&self) -> (m: String)
        ensures
            m@ == message_spec(self),
    {
        match self {
            BannerError::Io(s) => {
                let mut m = String::from_str("input/output or terminal error: ");
                m.append(s.as_str());
                m
            },
            BannerError::FontLoad(s) => {
                let mut m = String::from_str("could not load or parse the FIGlet font: ");
                m.append(s.as_str());
                m
            },
            BannerError::FigletGeneration(s) => {
                let mut m = String::from_str("could not generate the FIGlet art: ");
                m.append(s.as_str());
                m
            },
            BannerError::InvalidAnimation(s) => {
                let mut m = String::from_str("invalid animation configuration: ");
                m.append(s.as_str());
                m
            },
            BannerError::TerminalSize(s) => {
                let mut m = String::from_str("could not determine the terminal size: ");
                m.append(s.as_str());
                m
            },
            BannerError::Internal(s) => {
                let mut m = String::from_str("internal library error: ");
                m.append(s.as_str());
                m
            },
        }
    }
}

} // verus!
