//! What the library takes from outside crates and from parts of the standard
//! library that have no specification: every contract here is believed, not
//! proved, so each says which function it speaks of.
pub mod address;
pub mod chance;
pub mod codec;
pub mod consensus;
pub mod digest;
pub mod errors;
pub mod filetype;
pub mod hex;
pub mod sets;
pub mod unicode;
