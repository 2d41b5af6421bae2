//! Decoding of the static header region of Portable Executable images.
pub mod coff;
pub mod dos;
pub mod error;
pub mod optional;
pub mod pe;
pub mod sections;
pub mod utils;
