//! Predefined banner animations.

pub mod ferris;
