//! Trigger conditions over numbered detectors.
//!
//! A condition is written as ranges of detector numbers joined by `and` and
//! `or`, for example `(1-3) and (4-6)`, optionally followed by `, <number>`.
//! [`conditions::parse_ddr_expression`] turns such text into an
//! [`conditions::Expr`] or reports why it cannot, and
//! [`conditions::to_ddr_string`] writes an expression out in the long form
//! `ddr(D1) or ddr(D2) or ddr(D3)`.
//!
//! Beside these stand the flat conditions of [`conditions::flat`], the short
//! notation of [`conditions::gen_condition`], and the dotted byte codes of
//! [`converters`].
//!
//! Every function of this crate carries a contract, stated over sequences of
//! characters, that Verus proves; the modules also state and prove what
//! holds of the functions together, such as that whitespace around a text
//! does not change how it is read, and that every condition is the reading
//! of some text.

pub mod conditions;
pub mod converters;
pub mod text;
