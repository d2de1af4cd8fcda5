//! The formats that the crate reads.

pub mod stendhal;
