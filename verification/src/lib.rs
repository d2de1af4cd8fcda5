//! Tokenizing of exported book text into a format-agnostic token stream.
//!
//! A document in a supported format is turned into a [`syntax::TokenList`]: its metadata
//! and a flat sequence of [`syntax::Token`]s, which a renderer can turn into another
//! format. See [`import::Stendhal`] for the one format that is read so far.

pub mod error;
pub mod format;
pub mod import;
pub mod syntax;
