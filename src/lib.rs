//! Terminal text styling through ANSI SGR escape sequences.
//!
//! A [`styled::StyledText`] holds a piece of text and the ordered SGR codes applied to
//! it; rendering wraps the text in the style sequence and the matching resets.

pub mod sgr;
pub mod styled;
mod terminal;
