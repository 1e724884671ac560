//! Generation of the C++ glue classes that let Rust drive the CTP trading API.
//!
//! The library reads the class declarations of a CTP header, and renders, for the
//! API classes, a wrapper class that forwards every member function to the wrapped
//! object, and for the callback (SPI) classes, a subclass that forwards every
//! virtual callback to an `extern "C"` function implemented on the Rust side.
pub mod text;
pub mod patterns;
pub mod params;
pub mod cls;
pub mod table;
pub mod header;
pub mod bind;
