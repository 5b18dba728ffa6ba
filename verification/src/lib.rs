//! Decoders that turn powder-diffraction instrument files into one uniform
//! pattern: scan-axis positions, intensities and optional uncertainties.
//!
//! The extension of a file name selects the decoder: delimited text (`xy`,
//! `xye`, `csv`), a zip container with a profile entry (`rasx`), an XML
//! document (`xrdml`), and `raw`, which is GSAS text or an undocumented Bruker
//! binary buffer whose layout is inferred.
//!
//! Every number is carried as the bit pattern of an IEEE-754 value, so that
//! the decoding logic works on integers and bytes alone. Numerals are read by
//! a function that the caller passes in, and the positions of an axis that a
//! format gives by a rule are formed by the caller from the rule's parameters.
pub mod bruker;
pub mod bruker_axis;
pub mod bruker_layout;
pub mod bytes;
pub mod columns;
pub mod error;
pub mod gsas;
pub mod ieee;
pub mod loader;
pub mod numbers;
pub mod pattern;
pub mod rasx;
pub mod text;
pub mod xrdml;

pub use crate::error::GeddesError;
pub use crate::loader::{load_from_reader, read_bytes};
pub use crate::pattern::{Axis, ParsedPattern};
