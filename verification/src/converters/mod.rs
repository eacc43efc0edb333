//! Conversions between texts and the numeric notations of other tools.

pub mod ascii_converter;

pub use ascii_converter::gen_scn_from_chars;
