//! The tokenizers, one for each format that can be read.

pub use crate::format::stendhal::Stendhal;
