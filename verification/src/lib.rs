//! A build-time transform for book-style documentation: it finds fenced code
//! blocks tagged for the merjong diagram renderer, extracts their literal
//! payload, and replaces each block with a preformatted element that the
//! client-side renderer picks up.

pub mod bytes;
pub mod cli;
pub mod events;
pub mod normalize;
pub mod preprocessor;
pub mod render;
pub mod scanner;
pub mod splicer;
pub mod walker;
