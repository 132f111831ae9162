//! Decoding of ELF object files into an in-memory descriptor.
//!
//! A file is decoded in one forward pass over its bytes. The first bytes of
//! the file header name the byte order and the address width, and every
//! later field is read as they say; the counts in the file header size the
//! two tables that follow it.

pub mod elf;
pub mod errors;
pub mod parsing;
pub mod shared;

pub use self::parsing::Parse;
