//! Decoder for Windows Recycle Bin `$I` metadata records.
//!
//! A `$I` file holds a fixed-layout binary header (marker, original file
//! size, deletion timestamp in FILETIME convention, name length) followed by
//! a UTF-16LE encoded file path.  This crate decodes such a record from a
//! byte buffer, converts the timestamp to UTC calendar fields with a pure
//! proleptic-Gregorian algorithm, and renders the one-line report the tool
//! prints for each input file.

pub mod display;
pub mod filetime;
pub mod le;
pub mod record;
pub mod utf16;
