//! What holds of the library as a whole.
pub mod fingerprints;
pub mod names;
pub mod quoting;
pub mod reading;
pub mod sessions;
pub mod statements;
pub mod wire;
