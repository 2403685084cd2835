//! Strict decoding of standard Base64 text.
//!
//! The input may carry its `=` padding or leave it out. Anything else that is
//! not a complete encoding is refused with an [`Error`] that names the
//! offending character or group.

pub mod alphabet;
pub mod ascii;
pub mod character;
pub mod decimal;
pub mod decoder;
pub mod error;
pub mod group;
pub mod laws;
pub mod strings;

pub use alphabet::get_byte;
pub use character::Character;
pub use decoder::decode;
pub use error::Error;
